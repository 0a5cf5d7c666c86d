use personal_knowledge_os::error::ServiceError;
use personal_knowledge_os::retrieval::{
    fusable_rankings, fuse_rankings, plan_search, rankings_are_well_formed, DenseOutcome, FusedHit, HitKind,
    Rankings, SearchMethod, SearchRequest, SearchStatus, RRF_K,
};

#[test]
fn rrf_rewards_better_rank() {
    assert!(1.0 / (RRF_K as f64 + 1.0) > 1.0 / (RRF_K as f64 + 10.0));
}

fn request(query: &str, limit: Option<usize>) -> SearchRequest {
    SearchRequest { query: query.to_string(), limit, include_memories: true }
}

#[test]
fn search_plan_checks_query_and_clamps_limits() {
    let plan = plan_search(&request("  source of truth  ", None), 12, 40, "pgroonga").unwrap();
    assert_eq!(plan.query, "source of truth");
    assert_eq!((plan.limit, plan.candidates), (12, 40));
    assert!(plan.use_pgroonga);
    assert!(plan.include_memories);
    let plan = plan_search(&request("q", Some(500)), 12, 10, "ilike").unwrap();
    assert_eq!((plan.limit, plan.candidates), (50, 50));
    assert!(!plan.use_pgroonga);
    let plan = plan_search(&request("q", Some(0)), 12, 900, "pgroonga").unwrap();
    assert_eq!((plan.limit, plan.candidates), (1, 200));
    assert_eq!(
        plan_search(&request("   ", None), 12, 40, "pgroonga").unwrap_err(),
        ServiceError::BadRequest("query must not be empty".to_string())
    );
    assert_eq!(
        plan_search(&request(&"é".repeat(2001), None), 12, 40, "pgroonga").unwrap_err(),
        ServiceError::BadRequest("query is too long".to_string())
    );
    assert!(plan_search(&request(&"é".repeat(2000), None), 12, 40, "pgroonga").is_ok());
}

#[test]
fn search_status_records_degradation() {
    let mut status = SearchStatus::new();
    assert!(!status.lexical_failed(false));
    assert!(!status.degraded);
    assert!(status.lexical_failed(true));
    assert!(status.degraded);
    let mut status = SearchStatus::new();
    status.dense_outcome(DenseOutcome::Available);
    assert!(!status.degraded);
    assert_eq!(status.methods, vec![SearchMethod::Lexical, SearchMethod::Dense]);
    let names: Vec<&str> = status.methods.iter().map(|m| m.name()).collect();
    assert_eq!(names, vec!["lexical", "dense"]);
    let mut status = SearchStatus::new();
    status.dense_outcome(DenseOutcome::Unavailable);
    assert!(status.degraded);
    assert_eq!(status.methods[1].name(), "dense_unavailable");
    let mut status = SearchStatus::new();
    status.dense_outcome(DenseOutcome::Failed);
    assert_eq!(status.methods[1].name(), "dense_failed");
}

fn rrf(h: &FusedHit) -> f64 {
    h.lexical_rank.map_or(0.0, |r| 1.0 / (RRF_K as f64 + r as f64 + 1.0))
        + h.dense_rank.map_or(0.0, |r| 1.0 / (RRF_K as f64 + r as f64 + 1.0))
}

#[test]
fn fusion_ranks_items_found_by_both_methods_first() {
    let rk = Rankings {
        chunk_lexical: vec![10, 11, 12],
        memory_lexical: vec![20],
        chunk_dense: vec![12, 13],
        memory_dense: vec![],
    };
    assert!(rankings_are_well_formed(&rk));
    let hits = fuse_rankings(&rk, 10);
    let ids: Vec<(HitKind, u128)> = hits.iter().map(|h| (h.kind, h.id)).collect();
    // 12 is third lexically and first densely: 1/63 + 1/61 beats 1/61 alone.
    assert_eq!(ids[0], (HitKind::SourceChunk, 12));
    assert_eq!(hits[0].lexical_rank, Some(2));
    assert_eq!(hits[0].dense_rank, Some(0));
    assert_eq!(hits.len(), 5);
    for w in hits.windows(2) {
        assert!(rrf(&w[0]) >= rrf(&w[1]));
    }
    let mut all = ids.clone();
    all.sort_by_key(|(k, id)| (*k == HitKind::Memory, *id));
    assert_eq!(
        all,
        vec![
            (HitKind::SourceChunk, 10),
            (HitKind::SourceChunk, 11),
            (HitKind::SourceChunk, 12),
            (HitKind::SourceChunk, 13),
            (HitKind::Memory, 20),
        ]
    );
    assert_eq!(HitKind::Memory.name(), "memory");
    assert_eq!(HitKind::SourceChunk.name(), "source_chunk");
}

#[test]
fn fusion_keeps_the_best_limit_hits() {
    let rk = Rankings {
        chunk_lexical: vec![1, 2, 3, 4],
        memory_lexical: vec![],
        chunk_dense: vec![4],
        memory_dense: vec![],
    };
    let hits = fuse_rankings(&rk, 2);
    let ids: Vec<u128> = hits.iter().map(|h| h.id).collect();
    assert_eq!(ids, vec![4, 1]);
    assert!(fuse_rankings(&rk, 0).is_empty());
}

#[test]
fn repeated_ids_cannot_be_fused() {
    let rk = Rankings { chunk_lexical: vec![1, 1], memory_lexical: vec![], chunk_dense: vec![], memory_dense: vec![] };
    assert!(!rankings_are_well_formed(&rk));
}

#[test]
fn repeated_ids_keep_their_best_rank() {
    let rk = fusable_rankings(&vec![5, 6, 5, 7, 6], &vec![], &vec![9, 9], &vec![1]);
    assert!(rankings_are_well_formed(&rk));
    assert_eq!(rk.chunk_lexical, vec![5, 6, 7]);
    assert_eq!(rk.chunk_dense, vec![9]);
    assert_eq!(rk.memory_lexical, Vec::<u128>::new());
    assert_eq!(rk.memory_dense, vec![1]);
}
