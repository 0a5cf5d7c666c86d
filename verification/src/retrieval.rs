//! Hybrid retrieval: the search plan, its status, and the fusion of ranked
//! lists by Reciprocal Rank Fusion (RRF).
//!
//! An item at rank `r` (counting from 0) of a ranked list contributes
//! `1 / (RRF_K + r + 1)` to its fused score.  Source chunks are ranked by a
//! lexical and a dense list; memories by another pair.  Scores are exact
//! rationals here; the fused order is by score, highest first.
use vstd::prelude::*;
use vstd::string::StrSliceExecFns;

use crate::error::{bad_request, is_bad_request, ServiceError};
use crate::text::{str_equal, trim, trimmed_string};

verus! {

/// The RRF constant.
pub const RRF_K: u64 = 60;

/// A planned search: the trimmed query, the number of hits to return, the
/// number of candidates to ask each ranked list for, whether the lexical
/// lists come from PGroonga, and whether memories are searched.
#[derive(Debug)]
pub struct SearchPlan {
    pub query: String,
    pub limit: usize,
    pub candidates: i64,
    pub use_pgroonga: bool,
    pub include_memories: bool,
}

/// `n` brought into `[lo, hi]`.
pub open spec fn clamp(n: int, lo: int, hi: int) -> int {
    if n < lo {
        lo
    } else if n > hi {
        hi
    } else {
        n
    }
}

/// A search request: the query, the number of hits wanted, and whether
/// memories are searched besides source chunks (on by default).
#[derive(Debug, Clone)]
pub struct SearchRequest {
    pub query: String,
    pub limit: Option<usize>,
    pub include_memories: bool,
}

/// Plans a search: the query is trimmed and must hold 1 to 2000 characters;
/// the hit limit is the requested one (else the configured default) brought
/// into `[1, 50]`; the candidate count is the configured one brought into
/// `[limit, 200]`.
pub fn plan_search(
    request: &SearchRequest,
    default_limit: usize,
    candidate_limit: usize,
    lexical_backend: &str,
) -> (r: Result<SearchPlan, ServiceError>)
    ensures
        trim(request.query@).len() == 0 ==> (r matches Err(e) && is_bad_request(
            e,
            "query must not be empty"@,
        )),
        trim(request.query@).len() > 2000 ==> (r matches Err(e) && is_bad_request(
            e,
            "query is too long"@,
        )),
        1 <= trim(request.query@).len() <= 2000 ==> (r matches Ok(p) && {
            let limit = clamp(
                match request.limit {
                    Some(l) => l as int,
                    None => default_limit as int,
                },
                1,
                50,
            );
            &&& p.query@ == trim(request.query@)
            &&& p.limit == limit
            &&& p.candidates == clamp(candidate_limit as int, limit, 200)
            &&& p.use_pgroonga == (lexical_backend@ == "pgroonga"@)
            &&& p.include_memories == request.include_memories
        }),
{
    let q = trimmed_string(request.query.as_str());
    let n = q.unicode_len();
    if n == 0 {
        return Err(bad_request("query must not be empty"));
    }
    if n > 2000 {
        return Err(bad_request("query is too long"));
    }
    let requested = match request.limit {
        Some(l) => l,
        None => default_limit,
    };
    let limit: usize = if requested < 1 {
        1
    } else if requested > 50 {
        50
    } else {
        requested
    };
    let candidates: usize = if candidate_limit < limit {
        limit
    } else if candidate_limit > 200 {
        200
    } else {
        candidate_limit
    };
    let use_pgroonga = str_equal(lexical_backend, "pgroonga");
    Ok(
        SearchPlan {
            query: q,
            limit,
            candidates: candidates as i64,
            use_pgroonga,
            include_memories: request.include_memories,
        },
    )
}

/// A retrieval method that a search used or could not use.
#[derive(Debug, Clone, Copy, PartialEq, Eq)]
pub enum SearchMethod {
    Lexical,
    Dense,
    DenseUnavailable,
    DenseFailed,
}

impl SearchMethod {
    /// The name under which the method is reported.
    pub fn name(&self) -> (s: &'static str)
        ensures
            s@ == match *self {
                SearchMethod::Lexical => "lexical"@,
                SearchMethod::Dense => "dense"@,
                SearchMethod::DenseUnavailable => "dense_unavailable"@,
                SearchMethod::DenseFailed => "dense_failed"@,
            },
    {
        match self {
            SearchMethod::Lexical => "lexical",
            SearchMethod::Dense => "dense",
            SearchMethod::DenseUnavailable => "dense_unavailable",
            SearchMethod::DenseFailed => "dense_failed",
        }
    }
}

/// How the embedding of the query went.
#[derive(Debug, Clone, Copy, PartialEq, Eq)]
pub enum DenseOutcome {
    /// A vector was computed; the dense lists were searched.
    Available,
    /// No embedding provider is configured.
    Unavailable,
    /// The embedding provider failed.
    Failed,
}

/// The methods a search used and whether it ran degraded.
#[derive(Debug)]
pub struct SearchStatus {
    pub degraded: bool,
    pub methods: Vec<SearchMethod>,
}

impl SearchStatus {
    /// A search that has used the lexical method only.
    pub fn new() -> (s: SearchStatus)
        ensures
            !s.degraded,
            s.methods@ == seq![SearchMethod::Lexical],
    {
        let mut methods = Vec::new();
        methods.push(SearchMethod::Lexical);
        SearchStatus { degraded: false, methods }
    }

    /// A lexical search failed.  With PGroonga the search is degraded and
    /// retried with `ILIKE` (the result is true); otherwise the failure stands.
    pub fn lexical_failed(&mut self, use_pgroonga: bool) -> (retry: bool)
        ensures
            retry == use_pgroonga,
            final(self).degraded == (old(self).degraded || use_pgroonga),
            final(self).methods@ == old(self).methods@,
    {
        if use_pgroonga {
            self.degraded = true;
        }
        use_pgroonga
    }

    /// Records how the embedding of the query went.
    pub fn dense_outcome(&mut self, outcome: DenseOutcome)
        ensures
            final(self).degraded == (old(self).degraded || outcome != DenseOutcome::Available),
            final(self).methods@ == old(self).methods@.push(
                match outcome {
                    DenseOutcome::Available => SearchMethod::Dense,
                    DenseOutcome::Unavailable => SearchMethod::DenseUnavailable,
                    DenseOutcome::Failed => SearchMethod::DenseFailed,
                },
            ),
    {
        match outcome {
            DenseOutcome::Available => {
                self.methods.push(SearchMethod::Dense);
            },
            DenseOutcome::Unavailable => {
                self.degraded = true;
                self.methods.push(SearchMethod::DenseUnavailable);
            },
            DenseOutcome::Failed => {
                self.degraded = true;
                self.methods.push(SearchMethod::DenseFailed);
            },
        }
    }
}

/// What a hit is.
#[derive(Debug, Clone, Copy, PartialEq, Eq, Structural)]
pub enum HitKind {
    SourceChunk,
    Memory,
}

impl HitKind {
    /// The name under which the kind is reported.
    pub fn name(&self) -> (s: &'static str)
        ensures
            s@ == match *self {
                HitKind::SourceChunk => "source_chunk"@,
                HitKind::Memory => "memory"@,
            },
    {
        match self {
            HitKind::SourceChunk => "source_chunk",
            HitKind::Memory => "memory",
        }
    }
}

/// The four ranked lists of a search, by id, best first.  Memory lists are
/// empty when memories are not searched; dense lists are empty when no
/// query vector is available.
#[derive(Debug)]
pub struct Rankings {
    pub chunk_lexical: Vec<u128>,
    pub memory_lexical: Vec<u128>,
    pub chunk_dense: Vec<u128>,
    pub memory_dense: Vec<u128>,
}

/// One fused hit: what it is, and its rank in each of its kind's lists.
#[derive(Debug, Clone, Copy, PartialEq, Eq)]
pub struct FusedHit {
    pub kind: HitKind,
    pub id: u128,
    pub lexical_rank: Option<usize>,
    pub dense_rank: Option<usize>,
}

/// The lexical list of a kind.
pub open spec fn lexical_list(rk: Rankings, kind: HitKind) -> Seq<u128> {
    match kind {
        HitKind::SourceChunk => rk.chunk_lexical@,
        HitKind::Memory => rk.memory_lexical@,
    }
}

/// The dense list of a kind.
pub open spec fn dense_list(rk: Rankings, kind: HitKind) -> Seq<u128> {
    match kind {
        HitKind::SourceChunk => rk.chunk_dense@,
        HitKind::Memory => rk.memory_dense@,
    }
}

/// The rank of `id` in `list`, if it is there.
pub open spec fn rank_of(list: Seq<u128>, id: u128) -> Option<usize> {
    if list.contains(id) {
        Some(list.index_of(id) as usize)
    } else {
        None
    }
}

/// The item `(kind, id)` is in one of its kind's lists.
pub open spec fn is_candidate(rk: Rankings, kind: HitKind, id: u128) -> bool {
    lexical_list(rk, kind).contains(id) || dense_list(rk, kind).contains(id)
}

/// The fused hit of `(kind, id)`.
pub open spec fn fused_entry(rk: Rankings, kind: HitKind, id: u128) -> FusedHit {
    FusedHit {
        kind,
        id,
        lexical_rank: rank_of(lexical_list(rk, kind), id),
        dense_rank: rank_of(dense_list(rk, kind), id),
    }
}

/// The lists can be fused: no list names an item twice, and ranks fit in 32 bits.
pub open spec fn rankings_well_formed(rk: Rankings) -> bool {
    &&& rk.chunk_lexical@.no_duplicates()
    &&& rk.memory_lexical@.no_duplicates()
    &&& rk.chunk_dense@.no_duplicates()
    &&& rk.memory_dense@.no_duplicates()
    &&& rk.chunk_lexical.len() <= u32::MAX
    &&& rk.memory_lexical.len() <= u32::MAX
    &&& rk.chunk_dense.len() <= u32::MAX
    &&& rk.memory_dense.len() <= u32::MAX
}

/// Whether no item appears twice in the list.
fn distinct_ids(v: &Vec<u128>) -> (b: bool)
    ensures
        b == v@.no_duplicates(),
{
    let n = v.len();
    let mut i: usize = 0;
    while i < n
        invariant
            n == v.len(),
            i <= n,
            forall|p: int, q: int| 0 <= p < q < n && p < i ==> v@[p] != v@[q],
        decreases n - i,
    {
        let mut j: usize = i + 1;
        while j < n
            invariant
                n == v.len(),
                i < n,
                i + 1 <= j <= n,
                forall|p: int, q: int| 0 <= p < q < n && p < i ==> v@[p] != v@[q],
                forall|q: int| i < q < j ==> v@[i as int] != v@[q],
            decreases n - j,
        {
            if v[i] == v[j] {
                return false;
            }
            j = j + 1;
        }
        i = i + 1;
    }
    true
}

/// Whether the lists can be fused (see `rankings_well_formed`).
pub fn rankings_are_well_formed(rk: &Rankings) -> (b: bool)
    ensures
        b == rankings_well_formed(*rk),
{
    distinct_ids(&rk.chunk_lexical) && distinct_ids(&rk.memory_lexical) && distinct_ids(
        &rk.chunk_dense,
    ) && distinct_ids(&rk.memory_dense) && rk.chunk_lexical.len() <= 4294967295
        && rk.memory_lexical.len() <= 4294967295 && rk.chunk_dense.len() <= 4294967295
        && rk.memory_dense.len() <= 4294967295
}

/// The list with every repeat of an earlier item left out.
pub open spec fn first_occurrences(s: Seq<u128>) -> Seq<u128>
    decreases s.len(),
{
    if s.len() == 0 {
        seq![]
    } else {
        let p = first_occurrences(s.drop_last());
        if p.contains(s.last()) {
            p
        } else {
            p.push(s.last())
        }
    }
}

proof fn lemma_first_occurrences(s: Seq<u128>)
    ensures
        first_occurrences(s).no_duplicates(),
        first_occurrences(s).len() <= s.len(),
        forall|x: u128| first_occurrences(s).contains(x) <==> s.contains(x),
    decreases s.len(),
{
    if s.len() > 0 {
        let t = s.drop_last();
        lemma_first_occurrences(t);
        let p = first_occurrences(t);
        assert forall|x: u128| first_occurrences(s).contains(x) <==> s.contains(x) by {
            if s.contains(x) && x != s.last() {
                let k = choose|k: int| 0 <= k < s.len() && s[k] == x;
                assert(t[k] == x);
            }
            if t.contains(x) {
                let k = choose|k: int| 0 <= k < t.len() && t[k] == x;
                assert(s[k] == x);
            }
            if !p.contains(s.last()) {
                assert(p.push(s.last())[p.len() as int] == s.last());
                if p.push(s.last()).contains(x) && x != s.last() {
                    let k = choose|k: int| 0 <= k < p.len() + 1 && p.push(s.last())[k] == x;
                    assert(p[k] == x);
                }
                if p.contains(x) {
                    let k = choose|k: int| 0 <= k < p.len() && p[k] == x;
                    assert(p.push(s.last())[k] == x);
                }
            }
            assert(s[s.len() - 1] == s.last());
        }
    }
}

/// The list with every repeat of an earlier item left out, cut to the
/// first 2^32 - 1 items.
pub open spec fn fusable_list(s: Seq<u128>) -> Seq<u128> {
    if first_occurrences(s).len() <= u32::MAX {
        first_occurrences(s)
    } else {
        first_occurrences(s).take(u32::MAX as int)
    }
}

fn without_repeats(v: &Vec<u128>) -> (out: Vec<u128>)
    ensures
        out@ == fusable_list(v@),
{
    let mut out: Vec<u128> = Vec::new();
    let n = v.len();
    let mut i: usize = 0;
    while i < n
        invariant
            n == v.len(),
            i <= n,
            out@ == first_occurrences(v@.take(i as int)),
        decreases n - i,
    {
        let x = v[i];
        let mut seen = false;
        let mut k: usize = 0;
        while k < out.len()
            invariant
                k <= out.len(),
                seen == (exists|q: int| 0 <= q < k && out@[q] == x),
            decreases out.len() - k,
        {
            if out[k] == x {
                seen = true;
            }
            k = k + 1;
        }
        assert(v@.take(i + 1).drop_last() =~= v@.take(i as int));
        assert(v@.take(i + 1).last() == x);
        assert(seen == out@.contains(x));
        if !seen {
            out.push(x);
        }
        i = i + 1;
    }
    assert(v@.take(n as int) =~= v@);
    if out.len() > 4294967295 {
        out.truncate(4294967295);
    }
    out
}

/// Rankings that can be fused, from four ranked lists of ids: an id repeated
/// in a list keeps its first (best) rank, and a list keeps at most 2^32 - 1
/// items.
pub fn fusable_rankings(
    chunk_lexical: &Vec<u128>,
    memory_lexical: &Vec<u128>,
    chunk_dense: &Vec<u128>,
    memory_dense: &Vec<u128>,
) -> (rk: Rankings)
    ensures
        rankings_well_formed(rk),
        rk.chunk_lexical@ == fusable_list(chunk_lexical@),
        rk.memory_lexical@ == fusable_list(memory_lexical@),
        rk.chunk_dense@ == fusable_list(chunk_dense@),
        rk.memory_dense@ == fusable_list(memory_dense@),
{
    proof {
        lemma_first_occurrences(chunk_lexical@);
        lemma_first_occurrences(memory_lexical@);
        lemma_first_occurrences(chunk_dense@);
        lemma_first_occurrences(memory_dense@);
    }
    let rk = Rankings {
        chunk_lexical: without_repeats(chunk_lexical),
        memory_lexical: without_repeats(memory_lexical),
        chunk_dense: without_repeats(chunk_dense),
        memory_dense: without_repeats(memory_dense),
    };
    proof {
        lemma_take_no_duplicates(first_occurrences(chunk_lexical@));
        lemma_take_no_duplicates(first_occurrences(memory_lexical@));
        lemma_take_no_duplicates(first_occurrences(chunk_dense@));
        lemma_take_no_duplicates(first_occurrences(memory_dense@));
    }
    rk
}

proof fn lemma_take_no_duplicates(s: Seq<u128>)
    requires
        s.no_duplicates(),
    ensures
        s.len() > u32::MAX ==> s.take(u32::MAX as int).no_duplicates(),
{
    if s.len() > u32::MAX {
        let t = s.take(u32::MAX as int);
        assert forall|i: int, j: int| 0 <= i < t.len() && 0 <= j < t.len() && i != j implies t[i]
            != t[j] by {
            assert(t[i] == s[i] && t[j] == s[j]);
        }
    }
}

/// The denominator of the contribution of an optional rank (1 when absent).
pub open spec fn term_den(rank: Option<usize>) -> int {
    match rank {
        Some(r) => RRF_K + 1 + r,
        None => 1,
    }
}

/// The numerator of a hit's fused score.
pub open spec fn rrf_num(h: FusedHit) -> int {
    match (h.lexical_rank, h.dense_rank) {
        (Some(a), Some(b)) => (RRF_K + 1 + a) + (RRF_K + 1 + b),
        (None, None) => 0,
        _ => 1,
    }
}

/// The denominator of a hit's fused score.
pub open spec fn rrf_den(h: FusedHit) -> int {
    term_den(h.lexical_rank) * term_den(h.dense_rank)
}

/// The fused score of `x` is at least that of `y`.
pub open spec fn score_ge(x: FusedHit, y: FusedHit) -> bool {
    rrf_num(x) * rrf_den(y) >= rrf_num(y) * rrf_den(x)
}

/// `(kind, id)` is among the hits.
pub open spec fn in_hits(hits: Seq<FusedHit>, kind: HitKind, id: u128) -> bool {
    exists|i: int| 0 <= i < hits.len() && #[trigger] hits[i].kind == kind && hits[i].id == id
}

/// `hits` is the RRF fusion of the rankings, cut to `limit`: each hit is the
/// fused entry of an item of the lists, no item appears twice, hits come in
/// order of non-increasing score, and an item is left out only when `limit`
/// hits are returned, all scoring at least as high as it.
pub open spec fn is_fusion(rk: Rankings, limit: int, hits: Seq<FusedHit>) -> bool {
    &&& hits.len() <= limit
    &&& forall|i: int|
        0 <= i < hits.len() ==> is_candidate(rk, hits[i].kind, hits[i].id) && #[trigger] hits[i]
            == fused_entry(rk, hits[i].kind, hits[i].id)
    &&& forall|i: int, j: int|
        0 <= i < j < hits.len() ==> !(#[trigger] hits[i].kind == #[trigger] hits[j].kind
            && hits[i].id == hits[j].id)
    &&& forall|i: int, j: int|
        0 <= i < j < hits.len() ==> score_ge(#[trigger] hits[i], #[trigger] hits[j])
    &&& forall|kind: HitKind, id: u128|
        is_candidate(rk, kind, id) && !in_hits(hits, kind, id) ==> hits.len() == limit && forall|
            i: int,
        | 0 <= i < hits.len() ==> score_ge(#[trigger] hits[i], fused_entry(rk, kind, id))
}

proof fn lemma_rank_of(list: Seq<u128>, id: u128, r: int)
    requires
        list.no_duplicates(),
        0 <= r < list.len(),
        list[r] == id,
    ensures
        rank_of(list, id) == Some(r as usize),
{
    let k = list.index_of(id);
    assert(list.contains(id));
    assert(list[k] == id);
}

/// The rank of `id` in `list`.
fn position_of(list: &Vec<u128>, id: u128) -> (r: Option<usize>)
    requires
        list@.no_duplicates(),
    ensures
        r == rank_of(list@, id),
        r matches Some(k) ==> k < list.len(),
{
    let mut k: usize = 0;
    while k < list.len()
        invariant
            list@.no_duplicates(),
            k <= list.len(),
            forall|q: int| 0 <= q < k ==> list@[q] != id,
        decreases list.len() - k,
    {
        if list[k] == id {
            proof {
                lemma_rank_of(list@, id, k as int);
            }
            return Some(k);
        }
        k = k + 1;
    }
    None
}

/// The entries are fused entries of distinct items, with ranks below 2^32.
spec fn entries_ok(rk: Rankings, e: Seq<FusedHit>) -> bool {
    &&& forall|i: int|
        0 <= i < e.len() ==> is_candidate(rk, e[i].kind, e[i].id) && #[trigger] e[i]
            == fused_entry(rk, e[i].kind, e[i].id)
    &&& forall|i: int, j: int|
        0 <= i < e.len() && 0 <= j < e.len() && i != j ==> !(#[trigger] e[i].kind
            == #[trigger] e[j].kind && e[i].id == e[j].id)
}

proof fn lemma_rank_bound(list: Seq<u128>, id: u128)
    ensures
        rank_of(list, id) matches Some(r) ==> r < list.len(),
{
    if list.contains(id) {
        let k = list.index_of(id);
        assert(0 <= k < list.len());
    }
}

/// The position of `(kind, id)` among the entries.
fn find_entry(entries: &Vec<FusedHit>, kind: HitKind, id: u128) -> (r: Option<usize>)
    ensures
        match r {
            Some(k) => k < entries.len() && entries@[k as int].kind == kind && entries@[k as int].id == id,
            None => forall|p: int|
                0 <= p < entries.len() ==> !(#[trigger] entries@[p].kind == kind && entries@[p].id == id),
        },
{
    let mut k: usize = 0;
    while k < entries.len()
        invariant
            k <= entries.len(),
            forall|p: int| 0 <= p < k ==> !(#[trigger] entries@[p].kind == kind && entries@[p].id == id),
        decreases entries.len() - k,
    {
        if entries[k].kind == kind && entries[k].id == id {
            return Some(k);
        }
        k = k + 1;
    }
    None
}

/// Adds the fused entry of each item of `ids` not yet among `entries`.
fn add_candidates(rk: &Rankings, kind: HitKind, ids: &Vec<u128>, entries: &mut Vec<FusedHit>)
    requires
        rankings_well_formed(*rk),
        ids@ == lexical_list(*rk, kind) || ids@ == dense_list(*rk, kind),
        entries_ok(*rk, old(entries)@),
    ensures
        entries_ok(*rk, final(entries)@),
        forall|kd: HitKind, x: u128|
            in_hits(old(entries)@, kd, x) ==> #[trigger] in_hits(final(entries)@, kd, x),
        forall|q: int| 0 <= q < ids.len() ==> #[trigger] in_hits(final(entries)@, kind, ids@[q]),
{
    let lexical = match kind {
        HitKind::SourceChunk => &rk.chunk_lexical,
        HitKind::Memory => &rk.memory_lexical,
    };
    let dense = match kind {
        HitKind::SourceChunk => &rk.chunk_dense,
        HitKind::Memory => &rk.memory_dense,
    };
    let ghost start = entries@;
    let mut q: usize = 0;
    while q < ids.len()
        invariant
            rankings_well_formed(*rk),
            ids@ == lexical_list(*rk, kind) || ids@ == dense_list(*rk, kind),
            lexical@ == lexical_list(*rk, kind),
            dense@ == dense_list(*rk, kind),
            q <= ids.len(),
            entries_ok(*rk, entries@),
            forall|kd: HitKind, x: u128| in_hits(start, kd, x) ==> #[trigger] in_hits(entries@, kd, x),
            forall|p: int| 0 <= p < q ==> #[trigger] in_hits(entries@, kind, ids@[p]),
        decreases ids.len() - q,
    {
        let id = ids[q];
        let found = find_entry(entries, kind, id);
        assert(ids@[q as int] == id);
        assert(is_candidate(*rk, kind, id));
        if found.is_none() {
            let ghost before = entries@;
            let lexical_rank = position_of(lexical, id);
            let dense_rank = position_of(dense, id);
            entries.push(FusedHit { kind, id, lexical_rank, dense_rank });
            assert(entries@[before.len() as int].kind == kind);
            assert forall|kd: HitKind, x: u128| in_hits(start, kd, x) implies #[trigger] in_hits(entries@, kd, x) by {
                assert(in_hits(before, kd, x));
                let i = choose|i: int| 0 <= i < before.len() && #[trigger] before[i].kind == kd && before[i].id == x;
                assert(entries@[i] == before[i]);
            }
            assert forall|p: int| 0 <= p < q + 1 implies #[trigger] in_hits(entries@, kind, ids@[p]) by {
                if p < q {
                    assert(in_hits(before, kind, ids@[p]));
                    let i = choose|i: int| 0 <= i < before.len() && #[trigger] before[i].kind == kind && before[i].id == ids@[p];
                    assert(entries@[i] == before[i]);
                } else {
                    assert(entries@[before.len() as int].id == ids@[p]);
                }
            }
            assert forall|i: int, j: int|
                0 <= i < entries@.len() && 0 <= j < entries@.len() && i != j implies !(
                #[trigger] entries@[i].kind == #[trigger] entries@[j].kind && entries@[i].id == entries@[j].id) by {
                if i < before.len() && j < before.len() {
                    assert(entries@[i] == before[i] && entries@[j] == before[j]);
                } else if i < before.len() {
                    assert(entries@[i] == before[i]);
                } else if j < before.len() {
                    assert(entries@[j] == before[j]);
                }
            }
            assert forall|i: int| 0 <= i < entries@.len() implies is_candidate(
                *rk,
                entries@[i].kind,
                entries@[i].id,
            ) && #[trigger] entries@[i] == fused_entry(*rk, entries@[i].kind, entries@[i].id) by {
                if i < before.len() {
                    assert(entries@[i] == before[i]);
                }
            }
        } else {
            let k = found.unwrap();
            assert(entries@[k as int].kind == kind);
            assert(in_hits(entries@, kind, ids@[q as int]));
        }
        q = q + 1;
    }
}

/// The numerator and denominator of a hit's fused score.
fn score_of(h: &FusedHit) -> (r: (u128, u128))
    requires
        h.lexical_rank matches Some(a) ==> a < 0x1_0000_0000,
        h.dense_rank matches Some(b) ==> b < 0x1_0000_0000,
    ensures
        r.0 == rrf_num(*h),
        r.1 == rrf_den(*h),
        r.0 < 0x4_0000_0000,
        0 < r.1 < 0x4_0000_0000_0000_0000,
{
    let base = (RRF_K + 1) as u128;
    let dl: u128 = match h.lexical_rank {
        Some(a) => base + a as u128,
        None => 1,
    };
    let dd: u128 = match h.dense_rank {
        Some(b) => base + b as u128,
        None => 1,
    };
    let num: u128 = match (h.lexical_rank, h.dense_rank) {
        (Some(_), Some(_)) => dl + dd,
        (None, None) => 0,
        _ => 1,
    };
    assert(dl * dd < 0x4_0000_0000_0000_0000) by (nonlinear_arith)
        requires
            0 < dl < 0x2_0000_0000,
            0 < dd < 0x2_0000_0000,
    ;
    assert(dl * dd > 0) by (nonlinear_arith)
        requires
            0 < dl,
            0 < dd,
    ;
    (num, dl * dd)
}

/// Whether `x` scores strictly higher than `y`.
fn scores_higher(x: &FusedHit, y: &FusedHit) -> (b: bool)
    requires
        x.lexical_rank matches Some(a) ==> a < 0x1_0000_0000,
        x.dense_rank matches Some(b) ==> b < 0x1_0000_0000,
        y.lexical_rank matches Some(a) ==> a < 0x1_0000_0000,
        y.dense_rank matches Some(b) ==> b < 0x1_0000_0000,
    ensures
        b == !score_ge(*y, *x),
{
    let (xn, xd) = score_of(x);
    let (yn, yd) = score_of(y);
    assert(xn * yd < 0x10_0000_0000_0000_0000_0000_0000) by (nonlinear_arith)
        requires
            xn < 0x4_0000_0000,
            yd < 0x4_0000_0000_0000_0000,
    ;
    assert(yn * xd < 0x10_0000_0000_0000_0000_0000_0000) by (nonlinear_arith)
        requires
            yn < 0x4_0000_0000,
            xd < 0x4_0000_0000_0000_0000,
    ;
    xn * yd > yn * xd
}

/// Fused scores are totally ordered.
proof fn lemma_score_order(x: FusedHit, y: FusedHit, z: FusedHit)
    requires
        rrf_den(x) > 0,
        rrf_den(y) > 0,
        rrf_den(z) > 0,
    ensures
        score_ge(x, x),
        score_ge(x, y) || score_ge(y, x),
        score_ge(x, y) && score_ge(y, z) ==> score_ge(x, z),
{
    let (a, b) = (rrf_num(x), rrf_den(x));
    let (c, d) = (rrf_num(y), rrf_den(y));
    let (e, f) = (rrf_num(z), rrf_den(z));
    if score_ge(x, y) && score_ge(y, z) {
        assert(a * f >= e * b) by (nonlinear_arith)
            requires
                a * d >= c * b,
                c * f >= e * d,
                b > 0,
                d > 0,
                f > 0,
        ;
    }
}

proof fn lemma_den_positive(h: FusedHit)
    ensures
        rrf_den(h) > 0,
{
    let (p, q) = (term_den(h.lexical_rank), term_den(h.dense_rank));
    assert(p * q > 0) by (nonlinear_arith)
        requires
            p > 0,
            q > 0,
    ;
}

/// Fuses the ranked lists by RRF and keeps the `limit` best hits, best
/// first (see `is_fusion`).
pub fn fuse_rankings(rk: &Rankings, limit: usize) -> (hits: Vec<FusedHit>)
    requires
        rankings_well_formed(*rk),
    ensures
        is_fusion(*rk, limit as int, hits@),
{
    let mut entries: Vec<FusedHit> = Vec::new();
    add_candidates(rk, HitKind::SourceChunk, &rk.chunk_lexical, &mut entries);
    add_candidates(rk, HitKind::Memory, &rk.memory_lexical, &mut entries);
    add_candidates(rk, HitKind::SourceChunk, &rk.chunk_dense, &mut entries);
    add_candidates(rk, HitKind::Memory, &rk.memory_dense, &mut entries);
    assert forall|kind: HitKind, id: u128| is_candidate(*rk, kind, id) implies #[trigger] in_hits(
        entries@,
        kind,
        id,
    ) by {
        let l = lexical_list(*rk, kind);
        let d = dense_list(*rk, kind);
        if l.contains(id) {
            let q = choose|q: int| 0 <= q < l.len() && l[q] == id;
            match kind {
                HitKind::SourceChunk => assert(in_hits(entries@, kind, rk.chunk_lexical@[q])),
                HitKind::Memory => assert(in_hits(entries@, kind, rk.memory_lexical@[q])),
            }
        } else {
            let q = choose|q: int| 0 <= q < d.len() && d[q] == id;
            match kind {
                HitKind::SourceChunk => assert(in_hits(entries@, kind, rk.chunk_dense@[q])),
                HitKind::Memory => assert(in_hits(entries@, kind, rk.memory_dense@[q])),
            }
        }
    }
    assert forall|i: int| 0 <= i < entries@.len() implies (#[trigger] entries@[i].lexical_rank matches Some(a)
        ==> a < 0x1_0000_0000) && (entries@[i].dense_rank matches Some(b) ==> b < 0x1_0000_0000) by {
        let h = entries@[i];
        assert(h == fused_entry(*rk, h.kind, h.id));
        lemma_rank_bound(lexical_list(*rk, h.kind), h.id);
        lemma_rank_bound(dense_list(*rk, h.kind), h.id);
    }
    select_best(rk, &entries, limit)
}

/// Keeps the `limit` best entries, best first.
fn select_best(rk: &Rankings, entries: &Vec<FusedHit>, limit: usize) -> (hits: Vec<FusedHit>)
    requires
        entries_ok(*rk, entries@),
        forall|kind: HitKind, id: u128| is_candidate(*rk, kind, id) ==> #[trigger] in_hits(entries@, kind, id),
        forall|i: int|
            0 <= i < entries@.len() ==> (#[trigger] entries@[i].lexical_rank matches Some(a) ==> a
                < 0x1_0000_0000) && (entries@[i].dense_rank matches Some(b) ==> b < 0x1_0000_0000),
    ensures
        is_fusion(*rk, limit as int, hits@),
{
    let n = entries.len();
    let mut rem: Vec<usize> = Vec::new();
    let mut j: usize = 0;
    while j < n
        invariant
            j <= n == entries.len(),
            rem@ == Seq::new(j as nat, |x: int| x as usize),
        decreases n - j,
    {
        rem.push(j);
        assert(rem@ =~= Seq::new((j + 1) as nat, |x: int| x as usize));
        j = j + 1;
    }
    let mut out: Vec<FusedHit> = Vec::new();
    let ghost mut sel: Seq<int> = seq![];
    assert forall|k: int| 0 <= k < n implies #[trigger] chosen_or_left(sel, rem@, k) by {
        assert(rem@[k] == k);
    }
    while out.len() < limit && rem.len() > 0
        invariant
            n == entries.len(),
            entries_ok(*rk, entries@),
            forall|i: int|
                0 <= i < entries@.len() ==> (#[trigger] entries@[i].lexical_rank matches Some(a) ==> a
                    < 0x1_0000_0000) && (entries@[i].dense_rank matches Some(b) ==> b < 0x1_0000_0000),
            out.len() == sel.len(),
            out.len() <= limit,
            forall|x: int| 0 <= x < rem.len() ==> #[trigger] rem@[x] < n,
            forall|x: int, y: int|
                0 <= x < rem.len() && 0 <= y < rem.len() && x != y ==> #[trigger] rem@[x]
                    != #[trigger] rem@[y],
            forall|p: int|
                0 <= p < sel.len() ==> 0 <= #[trigger] sel[p] < n && out@[p] == entries@[sel[p]],
            forall|p: int, q: int| 0 <= p < q < sel.len() ==> #[trigger] sel[p] != #[trigger] sel[q],
            forall|p: int, x: int| 0 <= p < sel.len() && 0 <= x < rem.len() ==> #[trigger] sel[p] != #[trigger] rem@[x] as int,
            forall|k: int| 0 <= k < n ==> #[trigger] chosen_or_left(sel, rem@, k),
            forall|p: int, q: int|
                0 <= p < q < out.len() ==> score_ge(#[trigger] out@[p], #[trigger] out@[q]),
            forall|p: int, x: int|
                0 <= p < out.len() && 0 <= x < rem.len() ==> score_ge(
                    #[trigger] out@[p],
                    entries@[#[trigger] rem@[x] as int],
                ),
        decreases rem.len(),
    {
        let mut m: usize = 0;
        let mut x: usize = 1;
        proof {
            lemma_den_positive(entries@[rem@[0] as int]);
            lemma_score_order(entries@[rem@[0] as int], entries@[rem@[0] as int], entries@[rem@[0] as int]);
        }
        while x < rem.len()
            invariant
                1 <= x <= rem.len(),
                m < x,
                n == entries.len(),
                forall|z: int| 0 <= z < rem.len() ==> #[trigger] rem@[z] < n,
                forall|i: int|
                    0 <= i < entries@.len() ==> (#[trigger] entries@[i].lexical_rank matches Some(a) ==> a
                        < 0x1_0000_0000) && (entries@[i].dense_rank matches Some(b) ==> b < 0x1_0000_0000),
                forall|y: int|
                    0 <= y < x ==> score_ge(entries@[rem@[m as int] as int], entries@[#[trigger] rem@[y] as int]),
            decreases rem.len() - x,
        {
            let ghost old_m = m;
            if scores_higher(&entries[rem[x]], &entries[rem[m]]) {
                assert forall|y: int| 0 <= y < x + 1 implies score_ge(
                    entries@[rem@[x as int] as int],
                    entries@[#[trigger] rem@[y] as int],
                ) by {
                    let hx = entries@[rem@[x as int] as int];
                    let hm = entries@[rem@[old_m as int] as int];
                    let hy = entries@[rem@[y] as int];
                    lemma_den_positive(hx);
                    lemma_den_positive(hm);
                    lemma_den_positive(hy);
                    lemma_score_order(hx, hm, hy);
                    lemma_score_order(hm, hx, hy);
                    lemma_score_order(hx, hx, hx);
                }
                m = x;
            } else {
                assert(score_ge(entries@[rem@[m as int] as int], entries@[rem@[x as int] as int]));
            }
            x = x + 1;
        }
        let ghost old_rem = rem@;
        let ghost old_sel = sel;
        let ghost old_out = out@;
        let idx = rem.remove(m);
        out.push(entries[idx]);
        proof {
            sel = sel.push(idx as int);
        }
        assert forall|y: int| 0 <= y < rem.len() implies #[trigger] rem@[y] == old_rem[if y < m {
            y
        } else {
            y + 1
        }] by {}
        assert forall|k: int| 0 <= k < n implies #[trigger] chosen_or_left(sel, rem@, k) by {
            assert(chosen_or_left(old_sel, old_rem, k));
            if exists|p: int| 0 <= p < old_sel.len() && #[trigger] old_sel[p] == k {
                let p = choose|p: int| 0 <= p < old_sel.len() && #[trigger] old_sel[p] == k;
                assert(sel[p] == k);
            } else {
                let x = choose|x: int| 0 <= x < old_rem.len() && #[trigger] old_rem[x] == k;
                if x == m {
                    assert(sel[old_sel.len() as int] == k);
                } else if x < m {
                    assert(rem@[x] == k);
                } else {
                    assert(rem@[x - 1] == k);
                }
            }
        }
        assert forall|p: int|
            0 <= p < sel.len() implies 0 <= #[trigger] sel[p] < n && out@[p] == entries@[sel[p]] by {
            if p < old_sel.len() {
                assert(sel[p] == old_sel[p]);
            }
        }
        assert forall|p: int, q: int| 0 <= p < q < sel.len() implies #[trigger] sel[p] != #[trigger] sel[q] by {
            assert(sel[p] == old_sel[p]);
            if q == old_sel.len() {
                assert(old_rem[m as int] == idx);
            } else {
                assert(sel[q] == old_sel[q]);
            }
        }
        assert forall|p: int, y: int| 0 <= p < sel.len() && 0 <= y < rem.len() implies #[trigger] sel[p] != #[trigger] rem@[y] as int by {
            let z = if y < m {
                y
            } else {
                y + 1
            };
            assert(rem@[y] == old_rem[z]);
            if p < old_sel.len() {
                assert(sel[p] == old_sel[p]);
            } else {
                assert(sel[p] == old_rem[m as int]);
            }
        }
        assert forall|p: int, q: int| 0 <= p < q < out.len() implies score_ge(
            #[trigger] out@[p],
            #[trigger] out@[q],
        ) by {
            assert(out@[p] == old_out[p]);
            if q < old_out.len() {
                assert(out@[q] == old_out[q]);
            } else {
                assert(out@[q] == entries@[old_rem[m as int] as int]);
            }
        }
        assert forall|p: int, y: int| 0 <= p < out.len() && 0 <= y < rem.len() implies score_ge(
            #[trigger] out@[p],
            entries@[#[trigger] rem@[y] as int],
        ) by {
            let z = if y < m {
                y
            } else {
                y + 1
            };
            assert(rem@[y] == old_rem[z]);
            if p < old_out.len() {
                assert(out@[p] == old_out[p]);
            } else {
                assert(out@[p] == entries@[old_rem[m as int] as int]);
            }
        }
    }
    let hits = out;
    assert forall|i: int|
        0 <= i < hits@.len() implies is_candidate(*rk, hits@[i].kind, hits@[i].id) && #[trigger] hits@[i]
            == fused_entry(*rk, hits@[i].kind, hits@[i].id) by {
        assert(hits@[i] == entries@[sel[i]]);
    }
    assert forall|i: int, j: int| 0 <= i < j < hits@.len() implies !(#[trigger] hits@[i].kind
        == #[trigger] hits@[j].kind && hits@[i].id == hits@[j].id) by {
        assert(hits@[i] == entries@[sel[i]]);
        assert(hits@[j] == entries@[sel[j]]);
    }
    assert forall|kind: HitKind, id: u128|
        is_candidate(*rk, kind, id) && !in_hits(hits@, kind, id) implies hits@.len() == limit
        && forall|i: int|
        0 <= i < hits@.len() ==> score_ge(#[trigger] hits@[i], fused_entry(*rk, kind, id)) by {
        assert(in_hits(entries@, kind, id));
        let e = choose|e: int| 0 <= e < entries@.len() && #[trigger] entries@[e].kind == kind && entries@[e].id == id;
        assert(entries@[e] == fused_entry(*rk, kind, id));
        assert(chosen_or_left(sel, rem@, e));
        if exists|p: int| 0 <= p < sel.len() && #[trigger] sel[p] == e {
            let p = choose|p: int| 0 <= p < sel.len() && #[trigger] sel[p] == e;
            assert(hits@[p] == entries@[e]);
            assert(in_hits(hits@, kind, id));
        } else {
            let x = choose|x: int| 0 <= x < rem.len() && #[trigger] rem@[x] == e;
            assert(rem.len() > 0);
            assert forall|i: int| 0 <= i < hits@.len() implies score_ge(#[trigger] hits@[i], fused_entry(*rk, kind, id)) by {
                assert(score_ge(out@[i], entries@[rem@[x] as int]));
            }
        }
    }
    hits
}

/// Index `k` of the entries is either chosen or left.
spec fn chosen_or_left(sel: Seq<int>, rem: Seq<usize>, k: int) -> bool {
    (exists|p: int| 0 <= p < sel.len() && #[trigger] sel[p] == k) || (exists|x: int|
        0 <= x < rem.len() && #[trigger] rem[x] == k)
}

/// Law: a hit's fused score is the sum, over the lists that rank it, of
/// `1 / (RRF_K + 1 + rank)` (as the fraction `rrf_num / rrf_den`, whose
/// denominator is positive).  An item ranked only by one list scores
/// `1 / (RRF_K + 1 + rank)` whichever list it is; one ranked by neither
/// scores 0.
pub proof fn rrf_score_law(h: FusedHit)
    ensures
        rrf_den(h) > 0,
        h.lexical_rank is Some && h.dense_rank is None ==> rrf_num(h) * (RRF_K + 1
            + h.lexical_rank->0) == rrf_den(h),
        h.dense_rank is Some && h.lexical_rank is None ==> rrf_num(h) * (RRF_K + 1
            + h.dense_rank->0) == rrf_den(h),
        h.lexical_rank is Some && h.dense_rank is Some ==> rrf_num(h) * ((RRF_K + 1
            + h.lexical_rank->0) * (RRF_K + 1 + h.dense_rank->0)) == rrf_den(h) * ((RRF_K + 1
            + h.lexical_rank->0) + (RRF_K + 1 + h.dense_rank->0)),
        (h.lexical_rank is None && h.dense_rank is None) ==> rrf_num(h) == 0,
{
    lemma_den_positive(h);
    match (h.lexical_rank, h.dense_rank) {
        (Some(a), Some(b)) => {
            let x = RRF_K + 1 + a;
            let y = RRF_K + 1 + b;
            assert((x + y) * (x * y) == (x * y) * (x + y)) by (nonlinear_arith);
        },
        (Some(a), None) => {
            assert((RRF_K + 1 + a) * 1 == RRF_K + 1 + a);
        },
        (None, Some(b)) => {
            assert(1 * (RRF_K + 1 + b) == RRF_K + 1 + b);
        },
        (None, None) => {},
    }
}

/// Law: the two ranked lists weigh alike.  An item found only by the dense
/// list at rank `r` scores exactly as much as one found only by the lexical
/// list at rank `r`, and more than one found only by either list at rank
/// `r + 1`.
pub proof fn rrf_lists_weigh_alike(kind: HitKind, x: u128, y: u128, r: usize)
    requires
        r < usize::MAX,
    ensures
        ({
            let dense = FusedHit { kind, id: x, lexical_rank: None, dense_rank: Some(r) };
            let lexical = FusedHit { kind, id: y, lexical_rank: Some(r), dense_rank: None };
            let lexical_next = FusedHit { kind, id: y, lexical_rank: Some((r + 1) as usize), dense_rank: None };
            let dense_next = FusedHit { kind, id: y, lexical_rank: None, dense_rank: Some((r + 1) as usize) };
            &&& score_ge(dense, lexical) && score_ge(lexical, dense)
            &&& !score_ge(lexical_next, dense) && !score_ge(dense_next, lexical)
        }),
{
    let p = RRF_K + 1 + r;
    assert(1 * p == p && p * 1 == p);
    assert(1 * (p + 1) == p + 1 && (p + 1) * 1 == p + 1);
}

/// Law: a better rank earns a larger RRF contribution, and being found by
/// both methods scores higher than being found by one of them at the same rank.
pub proof fn rrf_rewards_better_rank(kind: HitKind, id: u128, a: usize, b: usize)
    requires
        a < b,
    ensures
        !score_ge(
            FusedHit { kind, id, lexical_rank: Some(b), dense_rank: None },
            FusedHit { kind, id, lexical_rank: Some(a), dense_rank: None },
        ),
        !score_ge(
            FusedHit { kind, id, lexical_rank: Some(a), dense_rank: None },
            FusedHit { kind, id, lexical_rank: Some(a), dense_rank: Some(b) },
        ),
{
    let x = RRF_K + 1 + a;
    let y = RRF_K + 1 + b;
    assert(x * 1 == x && y * 1 == y);
    assert(1 * (x * y) < (x + y) * (x * 1)) by (nonlinear_arith)
        requires
            x > 0,
            y > 0,
    ;
}

} // verus!
