pub mod text;
pub mod chunking;
pub mod outside;
pub mod time;
pub mod memory_extraction;
pub mod error;
pub mod graph;
pub mod limits;
pub mod retrieval;
pub mod capture;
pub mod memories;
pub mod jobs;
pub mod auth;
pub mod config;
pub mod providers;
pub mod models;
