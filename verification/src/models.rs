//! Small shapes of the HTTP interface: the health report and the default of
//! switches that a request may leave out.
use vstd::prelude::*;

verus! {

/// The value of a switch that a request leaves out and that defaults to on.
pub fn default_true() -> (b: bool)
    ensures
        b,
{
    true
}

/// The health report: the service's status and what is known of its database.
#[derive(Debug, Clone, Copy, PartialEq, Eq)]
pub struct HealthResponse {
    pub status: &'static str,
    pub database: &'static str,
}

impl HealthResponse {
    /// The report of a live service whose database was not checked.
    pub fn live() -> (h: HealthResponse)
        ensures
            h.status@ == "ok"@,
            h.database@ == "unchecked"@,
    {
        HealthResponse { status: "ok", database: "unchecked" }
    }

    /// The report of a ready service whose database answered.
    pub fn ready() -> (h: HealthResponse)
        ensures
            h.status@ == "ok"@,
            h.database@ == "ok"@,
    {
        HealthResponse { status: "ok", database: "ok" }
    }
}

} // verus!
