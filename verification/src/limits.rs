//! Paging limits of listing requests.
use vstd::prelude::*;

verus! {

/// The page size for a listing: 50 when none is asked for, else the asked
/// size brought into `[1, 200]`.
pub open spec fn spec_page_limit(requested: Option<i64>) -> i64 {
    let n = match requested {
        Some(n) => n,
        None => 50,
    };
    if n < 1 {
        1
    } else if n > 200 {
        200
    } else {
        n
    }
}

/// The page size for a listing (see `spec_page_limit`).
pub fn page_limit(requested: Option<i64>) -> (n: i64)
    ensures
        n == spec_page_limit(requested),
        1 <= n <= 200,
{
    let n = match requested {
        Some(n) => n,
        None => 50,
    };
    if n < 1 {
        1
    } else if n > 200 {
        200
    } else {
        n
    }
}

} // verus!
