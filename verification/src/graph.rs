//! Checks on entities and relations of the temporal knowledge graph.
use vstd::prelude::*;
use vstd::string::StrSliceExecFns;
use vstd::string::StringExecFns;

use crate::error::{bad_request, conflict, is_bad_request, is_conflict, ServiceError};
use crate::time::{earlier, Timestamp};
use crate::text::{
    chars_eq, chars_lt, chars_of, decimal, lemma_lex_order, lex_lt, push_decimal,
    spec_to_lowercase, str_to_lowercase, trim, trimmed_string,
};

verus! {

/// The message of a length refusal for a field.
pub open spec fn length_message(field: Seq<char>, max_chars: nat) -> Seq<char> {
    field + " must be 1..="@ + decimal(max_chars) + " characters"@
}

/// Refuses `value` unless it has between 1 and `max_chars` characters.
pub fn validate_nonempty(field: &str, value: &str, max_chars: usize) -> (r: Result<(), ServiceError>)
    ensures
        (value@.len() == 0 || value@.len() > max_chars) ==> (r matches Err(e) && is_bad_request(
            e,
            length_message(field@, max_chars as nat),
        )),
        !(value@.len() == 0 || value@.len() > max_chars) ==> r is Ok,
{
    let len = value.unicode_len();
    if len == 0 || len > max_chars {
        let mut msg = field.to_owned();
        msg.append(" must be 1..=");
        push_decimal(&mut msg, max_chars as u64);
        msg.append(" characters");
        return Err(ServiceError::BadRequest(msg));
    }
    Ok(())
}

/// The texts of a list of strings.
pub open spec fn views(v: Seq<String>) -> Seq<Seq<char>> {
    v.map_values(|s: String| s@)
}

/// The key under which an alias is compared: its trimmed, lower-cased text.
pub open spec fn alias_key(a: Seq<char>) -> Seq<char> {
    spec_to_lowercase(trim(a))
}

/// The alias at `i` is kept: it is not blank, it is not the canonical name up
/// to case, and no earlier non-blank alias has the same key.
pub open spec fn alias_kept(aliases: Seq<Seq<char>>, canonical_key: Seq<char>, i: int) -> bool {
    &&& trim(aliases[i]).len() > 0
    &&& alias_key(aliases[i]) != canonical_key
    &&& forall|j: int|
        0 <= j < i && trim(aliases[j]).len() > 0 ==> alias_key(aliases[j]) != alias_key(
            aliases[i],
        )
}

/// `x` is the trimmed text of a kept alias.
pub open spec fn is_kept_alias_text(
    aliases: Seq<Seq<char>>,
    canonical_key: Seq<char>,
    x: Seq<char>,
) -> bool {
    exists|i: int|
        0 <= i < aliases.len() && #[trigger] alias_kept(aliases, canonical_key, i) && trim(
            aliases[i],
        ) == x
}

/// `out` is the normal form of `aliases`: the trimmed text of each kept
/// alias, once, sorted strictly by lower-cased text.
pub open spec fn normalized_aliases(
    aliases: Seq<Seq<char>>,
    canonical_key: Seq<char>,
    out: Seq<Seq<char>>,
) -> bool {
    &&& forall|p: int|
        0 <= p < out.len() ==> is_kept_alias_text(aliases, canonical_key, #[trigger] out[p])
    &&& forall|i: int|
        0 <= i < aliases.len() && #[trigger] alias_kept(aliases, canonical_key, i) ==> out.contains(
            trim(aliases[i]),
        )
    &&& forall|p: int, q: int|
        0 <= p < q < out.len() ==> lex_lt(
            spec_to_lowercase(#[trigger] out[p]),
            spec_to_lowercase(#[trigger] out[q]),
        )
}

/// Trims the aliases of an entity, drops blank ones, drops those equal to
/// the canonical name up to case, keeps the first of those equal up to case,
/// and sorts them by lower-cased text.  At most 100 aliases of at most 256
/// characters each are accepted.
pub fn normalize_aliases(aliases: Vec<String>, canonical_name: &str) -> (r: Result<
    Vec<String>,
    ServiceError,
>)
    ensures
        aliases.len() > 100 ==> (r matches Err(e) && is_bad_request(
            e,
            "aliases must contain at most 100 values"@,
        )),
        aliases.len() <= 100 && (exists|i: int|
            0 <= i < aliases.len() && #[trigger] trim(aliases@[i]@).len() > 256) ==> (r matches Err(
            e,
        ) && is_bad_request(e, "each alias must be at most 256 characters"@)),
        aliases.len() <= 100 && (forall|i: int|
            0 <= i < aliases.len() ==> #[trigger] trim(aliases@[i]@).len() <= 256) ==> (r matches Ok(
            v,
        ) && normalized_aliases(
            views(aliases@),
            spec_to_lowercase(canonical_name@),
            views(v@),
        )),
{
    if aliases.len() > 100 {
        return Err(bad_request("aliases must contain at most 100 values"));
    }
    let ghost a = views(aliases@);
    let ghost ck = spec_to_lowercase(canonical_name@);
    let canonical_key = chars_of(str_to_lowercase(canonical_name).as_str());
    let n = aliases.len();
    let mut texts: Vec<String> = Vec::new();
    let mut keys: Vec<Vec<char>> = Vec::new();
    let ghost mut kidx: Seq<int> = seq![];
    let mut i: usize = 0;
    while i < n
        invariant
            n == aliases.len() <= 100,
            a == views(aliases@),
            canonical_key@ == ck,
            ck == spec_to_lowercase(canonical_name@),
            i <= n,
            texts.len() == keys.len() == kidx.len(),
            forall|k: int|
                0 <= k < kidx.len() ==> {
                    &&& 0 <= #[trigger] kidx[k] < i
                    &&& alias_kept(a, ck, kidx[k])
                    &&& texts@[k]@ == trim(a[kidx[k]])
                    &&& keys@[k]@ == alias_key(a[kidx[k]])
                },
            forall|k1: int, k2: int| 0 <= k1 < k2 < kidx.len() ==> #[trigger] kidx[k1] < #[trigger] kidx[k2],
            forall|j: int|
                0 <= j < i && alias_kept(a, ck, j) ==> exists|k: int|
                    0 <= k < kidx.len() && #[trigger] kidx[k] == j,
            forall|j: int|
                0 <= j < i && trim(#[trigger] a[j]).len() > 0 && alias_key(a[j]) != ck ==> exists|
                    k: int,
                | 0 <= k < keys.len() && keys@[k]@ == alias_key(a[j]),
            forall|j: int| 0 <= j < i ==> trim(#[trigger] a[j]).len() <= 256,
        decreases n - i,
    {
        assert(a[i as int] == aliases@[i as int]@);
        let t = trimmed_string(aliases[i].as_str());
        if t.unicode_len() == 0 {
            i = i + 1;
            continue;
        }
        if t.unicode_len() > 256 {
            assert(trim(aliases@[i as int]@).len() > 256);
            return Err(bad_request("each alias must be at most 256 characters"));
        }
        let key = chars_of(str_to_lowercase(t.as_str()).as_str());
        assert(key@ == alias_key(a[i as int]));
        if chars_eq(&key, &canonical_key) {
            i = i + 1;
            continue;
        }
        match find_key(&keys, &key) {
            Some(k) => {
                assert(!alias_kept(a, ck, i as int)) by {
                    let j = kidx[k as int];
                    assert(trim(a[j]).len() > 0);
                }
                i = i + 1;
                continue;
            },
            None => {},
        }
        assert forall|j: int|
            0 <= j < i && trim(a[j]).len() > 0 implies alias_key(a[j]) != alias_key(a[i as int]) by {
            if alias_key(a[j]) != ck {
                let q = choose|q: int| 0 <= q < keys.len() && keys@[q]@ == alias_key(a[j]);
            }
        }
        assert(alias_kept(a, ck, i as int));
        let ghost old_kidx = kidx;
        let ghost old_keys = keys@;
        proof {
            kidx = kidx.push(i as int);
        }
        texts.push(t);
        keys.push(key);
        assert(kidx[kidx.len() - 1] == i);
        assert forall|j: int| 0 <= j < i + 1 && alias_kept(a, ck, j) implies exists|k: int|
            0 <= k < kidx.len() && #[trigger] kidx[k] == j by {
            if j < i {
                let k = choose|k: int| 0 <= k < old_kidx.len() && #[trigger] old_kidx[k] == j;
                assert(kidx[k] == j);
            } else {
                assert(kidx[kidx.len() - 1] == j);
            }
        }
        assert forall|j: int|
            0 <= j < i + 1 && trim(#[trigger] a[j]).len() > 0 && alias_key(a[j]) != ck implies exists|
            k: int,
        | 0 <= k < keys.len() && keys@[k]@ == alias_key(a[j]) by {
            if j < i {
                let k = choose|k: int| 0 <= k < old_keys.len() && old_keys[k]@ == alias_key(a[j]);
                assert(keys@[k] == old_keys[k]);
            } else {
                assert(keys@[keys.len() - 1]@ == alias_key(a[j]));
            }
        }
        i = i + 1;
    }
    assert forall|i: int|
        0 <= i < aliases.len() implies #[trigger] trim(aliases@[i]@).len() <= 256 by {
        assert(a[i] == aliases@[i]@);
    }
    assert forall|k: int| 0 <= k < keys.len() implies keys@[k]@ == spec_to_lowercase(
        #[trigger] texts@[k]@,
    ) by {
        assert(0 <= kidx[k]);
    }
    assert forall|k1: int, k2: int|
        0 <= k1 < keys.len() && 0 <= k2 < keys.len() && k1 != k2 implies #[trigger] keys@[k1]@
        != #[trigger] keys@[k2]@ by {
        let i1 = kidx[k1];
        let i2 = kidx[k2];
        if k1 < k2 {
            assert(i1 < i2);
            assert(trim(a[i1]).len() > 0);
        } else {
            assert(i2 < i1);
            assert(trim(a[i2]).len() > 0);
        }
    }
    let out = sort_by_keys(&texts, &keys);
    let ghost ov = views(out@);
    assert forall|p: int| 0 <= p < ov.len() implies is_kept_alias_text(a, ck, #[trigger] ov[p]) by {
        assert(texts@.contains(out@[p]));
        let k = choose|k: int| 0 <= k < texts.len() && #[trigger] texts@[k] == out@[p];
        let i = kidx[k];
        assert(alias_kept(a, ck, i));
        assert(trim(a[i]) == ov[p]);
    }
    assert forall|i: int| 0 <= i < a.len() && #[trigger] alias_kept(a, ck, i) implies ov.contains(
        trim(a[i]),
    ) by {
        let k = choose|k: int| 0 <= k < kidx.len() && #[trigger] kidx[k] == i;
        assert(0 <= kidx[k]);
        assert(out@.contains(texts@[k]));
        let p = choose|p: int| 0 <= p < out.len() && #[trigger] out@[p] == texts@[k];
        assert(ov[p] == trim(a[i]));
    }
    assert forall|p: int, q: int| 0 <= p < q < ov.len() implies lex_lt(
        spec_to_lowercase(#[trigger] ov[p]),
        spec_to_lowercase(#[trigger] ov[q]),
    ) by {
        assert(ov[p] == out@[p]@);
        assert(ov[q] == out@[q]@);
    }
    assert(normalized_aliases(a, ck, ov));
    Ok(out)
}

/// The position of `key` among `keys`.
fn find_key(keys: &Vec<Vec<char>>, key: &Vec<char>) -> (r: Option<usize>)
    ensures
        match r {
            Some(k) => k < keys.len() && keys@[k as int]@ == key@,
            None => forall|q: int| 0 <= q < keys.len() ==> keys@[q]@ != key@,
        },
{
    let mut k: usize = 0;
    while k < keys.len()
        invariant
            k <= keys.len(),
            forall|q: int| 0 <= q < k ==> keys@[q]@ != key@,
        decreases keys.len() - k,
    {
        if chars_eq(&keys[k], key) {
            return Some(k);
        }
        k = k + 1;
    }
    None
}

/// Every element of `a` is in `b`, and every element of `b` is in `a`.
pub open spec fn same_elements(a: Seq<String>, b: Seq<String>) -> bool {
    &&& forall|p: int| 0 <= p < a.len() ==> b.contains(#[trigger] a[p])
    &&& forall|k: int| 0 <= k < b.len() ==> a.contains(#[trigger] b[k])
}

/// Index `k` is either already selected or still remaining.
spec fn placed(sel: Seq<int>, rem: Seq<usize>, k: int) -> bool {
    (exists|p: int| 0 <= p < sel.len() && #[trigger] sel[p] == k) || (exists|x: int|
        0 <= x < rem.len() && #[trigger] rem[x] == k)
}

/// Sorts texts by their keys, which are their lower-cased forms and distinct.
fn sort_by_keys(texts: &Vec<String>, keys: &Vec<Vec<char>>) -> (out: Vec<String>)
    requires
        texts.len() == keys.len(),
        forall|k: int| 0 <= k < keys.len() ==> keys@[k]@ == spec_to_lowercase(#[trigger] texts@[k]@),
        forall|k1: int, k2: int|
            0 <= k1 < keys.len() && 0 <= k2 < keys.len() && k1 != k2 ==> #[trigger] keys@[k1]@
                != #[trigger] keys@[k2]@,
    ensures
        same_elements(out@, texts@),
        forall|p: int, q: int|
            0 <= p < q < out.len() ==> lex_lt(
                spec_to_lowercase(#[trigger] out@[p]@),
                spec_to_lowercase(#[trigger] out@[q]@),
            ),
{
    let n = texts.len();
    let mut rem: Vec<usize> = Vec::new();
    let mut j: usize = 0;
    while j < n
        invariant
            j <= n,
            rem@ == Seq::new(j as nat, |x: int| x as usize),
        decreases n - j,
    {
        rem.push(j);
        assert(rem@ =~= Seq::new((j + 1) as nat, |x: int| x as usize));
        j = j + 1;
    }
    let mut out: Vec<String> = Vec::new();
    let ghost mut sel: Seq<int> = seq![];
    assert forall|k: int| 0 <= k < n implies #[trigger] placed(sel, rem@, k) by {
        assert(rem@[k] == k);
    }
    while rem.len() > 0
        invariant
            n == texts.len() == keys.len(),
            forall|k: int| 0 <= k < keys.len() ==> keys@[k]@ == spec_to_lowercase(#[trigger] texts@[k]@),
            forall|k1: int, k2: int|
                0 <= k1 < keys.len() && 0 <= k2 < keys.len() && k1 != k2 ==> #[trigger] keys@[k1]@
                    != #[trigger] keys@[k2]@,
            out.len() == sel.len(),
            forall|x: int| 0 <= x < rem.len() ==> #[trigger] rem@[x] < n,
            forall|x: int, y: int| 0 <= x < rem.len() && 0 <= y < rem.len() && x != y ==> #[trigger] rem@[x] != #[trigger] rem@[y],
            forall|p: int| 0 <= p < sel.len() ==> 0 <= #[trigger] sel[p] < n && out@[p] == texts@[sel[p]],
            forall|k: int| 0 <= k < n ==> #[trigger] placed(sel, rem@, k),
            forall|p: int, q: int|
                0 <= p < q < sel.len() ==> lex_lt(keys@[#[trigger] sel[p]]@, keys@[#[trigger] sel[q]]@),
            forall|p: int, x: int|
                0 <= p < sel.len() && 0 <= x < rem.len() ==> lex_lt(
                    keys@[#[trigger] sel[p]]@,
                    keys@[#[trigger] rem@[x] as int]@,
                ),
        decreases rem.len(),
    {
        let mut m: usize = 0;
        let mut x: usize = 1;
        proof {
            lemma_lex_order(keys@[rem@[0] as int]@, keys@[rem@[0] as int]@);
        }
        while x < rem.len()
            invariant
                1 <= x <= rem.len(),
                m < x,
                forall|z: int| 0 <= z < rem.len() ==> #[trigger] rem@[z] < n,
                n == keys.len(),
                forall|y: int|
                    0 <= y < x ==> !lex_lt(keys@[rem@[y] as int]@, keys@[rem@[m as int] as int]@),
            decreases rem.len() - x,
        {
            if chars_lt(&keys[rem[x]], &keys[rem[m]]) {
                let ghost old_m = m;
                assert forall|y: int| 0 <= y < x + 1 implies !lex_lt(
                    keys@[rem@[y] as int]@,
                    keys@[rem@[x as int] as int]@,
                ) by {
                    let ky = keys@[rem@[y] as int]@;
                    let kx = keys@[rem@[x as int] as int]@;
                    let km = keys@[rem@[old_m as int] as int]@;
                    lemma_lex_order(kx, kx);
                    if lex_lt(ky, kx) {
                        lemma_lex_transitive(ky, kx, km);
                    }
                }
                m = x;
            }
            x = x + 1;
        }
        let ghost old_rem = rem@;
        let ghost old_sel = sel;
        let idx = rem.remove(m);
        let ghost mkey = keys@[idx as int]@;
        assert forall|y: int| 0 <= y < old_rem.len() && y != m implies lex_lt(
            mkey,
            keys@[#[trigger] old_rem[y] as int]@,
        ) by {
            lemma_lex_order(keys@[old_rem[y] as int]@, mkey);
        }
        out.push(texts[idx].clone());
        proof {
            sel = sel.push(idx as int);
        }
        assert forall|y: int| 0 <= y < rem.len() implies #[trigger] rem@[y] == old_rem[if y < m {
            y
        } else {
            y + 1
        }] by {}
        assert forall|k: int| 0 <= k < n implies #[trigger] placed(sel, rem@, k) by {
            assert(placed(old_sel, old_rem, k));
            if exists|p: int| 0 <= p < old_sel.len() && #[trigger] old_sel[p] == k {
                let p = choose|p: int| 0 <= p < old_sel.len() && #[trigger] old_sel[p] == k;
                assert(sel[p] == k);
            } else {
                let x = choose|x: int| 0 <= x < old_rem.len() && #[trigger] old_rem[x] == k;
                if x == m {
                    assert(sel[old_sel.len() as int] == k);
                } else if x < m {
                    assert(rem@[x] == k);
                } else {
                    assert(rem@[x - 1] == k);
                }
            }
        }
        assert forall|p: int| 0 <= p < sel.len() implies 0 <= #[trigger] sel[p] < n && out@[p] == texts@[sel[p]] by {
            if p < old_sel.len() {
                assert(sel[p] == old_sel[p]);
            }
        }
        assert forall|p: int, q: int|
            0 <= p < q < sel.len() implies lex_lt(keys@[#[trigger] sel[p]]@, keys@[#[trigger] sel[q]]@) by {
            assert(sel[p] == old_sel[p]);
            if q < old_sel.len() {
                assert(sel[q] == old_sel[q]);
            } else {
                assert(old_rem[m as int] == idx);
            }
        }
        assert forall|p: int, y: int|
            0 <= p < sel.len() && 0 <= y < rem.len() implies lex_lt(
                keys@[#[trigger] sel[p]]@,
                keys@[#[trigger] rem@[y] as int]@,
            ) by {
            let z = if y < m {
                y
            } else {
                y + 1
            };
            assert(rem@[y] == old_rem[z]);
            if p < old_sel.len() {
                assert(sel[p] == old_sel[p]);
            }
        }
    }
    assert forall|p: int| 0 <= p < out.len() implies texts@.contains(#[trigger] out@[p]) by {
        assert(texts@[sel[p]] == out@[p]);
    }
    assert forall|k: int| 0 <= k < texts.len() implies out@.contains(#[trigger] texts@[k]) by {
        assert(placed(sel, rem@, k));
        let p = choose|p: int| 0 <= p < sel.len() && #[trigger] sel[p] == k;
        assert(out@[p] == texts@[k]);
    }
    assert forall|p: int, q: int|
        0 <= p < q < out.len() implies lex_lt(
            spec_to_lowercase(#[trigger] out@[p]@),
            spec_to_lowercase(#[trigger] out@[q]@),
        ) by {
        assert(out@[p] == texts@[sel[p]]);
        assert(out@[q] == texts@[sel[q]]);
    }
    out
}

/// The shape of a JSON value, as far as the checks need it.
#[derive(Debug, Clone, Copy, PartialEq, Eq, Structural)]
pub enum JsonShape {
    Null,
    Object,
    Other,
}

/// An entity ready to be stored: trimmed type and name, normalised aliases,
/// and whether its attributes are to be stored as an empty object.
#[derive(Debug)]
pub struct EntityDraft {
    pub entity_type: String,
    pub canonical_name: String,
    pub empty_attributes: bool,
    pub aliases: Vec<String>,
}

/// Checks a request to create an entity, in order: its trimmed type (1 to 64
/// characters), its trimmed canonical name (1 to 256 characters), its
/// attributes (a JSON object or null), and its aliases.
pub fn prepare_entity(
    entity_type: &str,
    canonical_name: &str,
    attributes: JsonShape,
    aliases: Vec<String>,
) -> (r: Result<EntityDraft, ServiceError>)
    ensures
        ({
            let et = trim(entity_type@);
            let cn = trim(canonical_name@);
            &&& (et.len() == 0 || et.len() > 64) ==> (r matches Err(e) && is_bad_request(
                e,
                length_message("entity_type"@, 64),
            ))
            &&& !(et.len() == 0 || et.len() > 64) && (cn.len() == 0 || cn.len() > 256) ==> (r matches Err(
                e,
            ) && is_bad_request(e, length_message("canonical_name"@, 256)))
            &&& !(et.len() == 0 || et.len() > 64) && !(cn.len() == 0 || cn.len() > 256) ==> {
                &&& attributes == JsonShape::Other ==> (r matches Err(e) && is_bad_request(
                    e,
                    "attributes must be a JSON object"@,
                ))
                &&& attributes != JsonShape::Other && aliases.len() > 100 ==> (r matches Err(e)
                    && is_bad_request(e, "aliases must contain at most 100 values"@))
                &&& attributes != JsonShape::Other && aliases.len() <= 100 && (exists|i: int|
                    0 <= i < aliases.len() && #[trigger] trim(aliases@[i]@).len() > 256) ==> (r matches Err(
                    e,
                ) && is_bad_request(e, "each alias must be at most 256 characters"@))
                &&& attributes != JsonShape::Other && aliases.len() <= 100 && (forall|i: int|
                    0 <= i < aliases.len() ==> #[trigger] trim(aliases@[i]@).len() <= 256) ==> (r matches Ok(
                    d,
                ) && d.entity_type@ == et && d.canonical_name@ == cn && d.empty_attributes == (
                attributes == JsonShape::Null) && normalized_aliases(
                    views(aliases@),
                    spec_to_lowercase(cn),
                    views(d.aliases@),
                ))
            }
        }),
{
    let et = trimmed_string(entity_type);
    let cn = trimmed_string(canonical_name);
    validate_nonempty("entity_type", et.as_str(), 64)?;
    validate_nonempty("canonical_name", cn.as_str(), 256)?;
    let empty_attributes = match attributes {
        JsonShape::Null => true,
        JsonShape::Object => false,
        JsonShape::Other => {
            return Err(bad_request("attributes must be a JSON object"));
        },
    };
    let aliases = normalize_aliases(aliases, cn.as_str())?;
    Ok(EntityDraft { entity_type: et, canonical_name: cn, empty_attributes, aliases })
}

/// A checked entity listing query.
#[derive(Debug)]
pub struct EntityQuery {
    pub limit: i64,
    pub entity_type: Option<String>,
    pub search: Option<String>,
}

/// The trimmed text, unless it is blank.
pub open spec fn nonblank(s: Option<Seq<char>>) -> Option<Seq<char>> {
    match s {
        Some(t) => if trim(t).len() > 0 {
            Some(trim(t))
        } else {
            None
        },
        None => None,
    }
}

/// The view of an optional text.
pub open spec fn opt_str_view(s: Option<&str>) -> Option<Seq<char>> {
    match s {
        Some(t) => Some(t@),
        None => None,
    }
}

/// The view of an optional string.
pub open spec fn opt_string_view(s: Option<String>) -> Option<Seq<char>> {
    match s {
        Some(t) => Some(t@),
        None => None,
    }
}

fn nonblank_string(s: Option<&str>) -> (r: Option<String>)
    ensures
        opt_string_view(r) == nonblank(opt_str_view(s)),
{
    match s {
        Some(t) => {
            let v = trimmed_string(t);
            if v.unicode_len() > 0 {
                Some(v)
            } else {
                None
            }
        },
        None => None,
    }
}

/// Checks an entity listing query: the page limit, the type filter (blank
/// means none; at most 64 characters) and the name search (blank means none;
/// at most 256 characters).
pub fn prepare_entity_query(limit: Option<i64>, entity_type: Option<&str>, query: Option<&str>) -> (r:
    Result<EntityQuery, ServiceError>)
    ensures
        ({
            let et = nonblank(opt_str_view(entity_type));
            let q = nonblank(opt_str_view(query));
            &&& (et matches Some(t) && t.len() > 64) ==> (r matches Err(e) && is_bad_request(
                e,
                length_message("entity_type"@, 64),
            ))
            &&& !(et matches Some(t) && t.len() > 64) && (q matches Some(t) && t.len() > 256) ==> (r matches Err(
                e,
            ) && is_bad_request(e, "query must be at most 256 characters"@))
            &&& !(et matches Some(t) && t.len() > 64) && !(q matches Some(t) && t.len() > 256) ==> (r matches Ok(
                eq,
            ) && eq.limit == crate::limits::spec_page_limit(limit) && opt_string_view(eq.entity_type)
                == et && opt_string_view(eq.search) == q)
        }),
{
    let limit = crate::limits::page_limit(limit);
    let entity_type = nonblank_string(entity_type);
    let search = nonblank_string(query);
    match &entity_type {
        Some(t) => {
            validate_nonempty("entity_type", t.as_str(), 64)?;
        },
        None => {},
    }
    match &search {
        Some(t) => {
            if t.unicode_len() > 256 {
                return Err(bad_request("query must be at most 256 characters"));
            }
        },
        None => {},
    }
    Ok(EntityQuery { limit, entity_type, search })
}

/// Refuses a relation from an entity to itself, or one whose validity ends
/// before it starts.
pub fn check_relation_shape(
    subject_entity_id: u128,
    object_entity_id: u128,
    valid_from: Option<Timestamp>,
    valid_until: Option<Timestamp>,
) -> (r: Result<(), ServiceError>)
    ensures
        subject_entity_id == object_entity_id ==> (r matches Err(e) && is_bad_request(
            e,
            "subject_entity_id and object_entity_id must differ"@,
        )),
        subject_entity_id != object_entity_id && (valid_from matches Some(f) && valid_until matches Some(
            u,
        ) && earlier(u, f)) ==> (r matches Err(e) && is_bad_request(
            e,
            "valid_until must be greater than or equal to valid_from"@,
        )),
        subject_entity_id != object_entity_id && !(valid_from matches Some(f) && valid_until matches Some(
            u,
        ) && earlier(u, f)) ==> r is Ok,
{
    if subject_entity_id == object_entity_id {
        return Err(bad_request("subject_entity_id and object_entity_id must differ"));
    }
    match (valid_from, valid_until) {
        (Some(f), Some(u)) => {
            if u.is_before(&f) {
                return Err(bad_request("valid_until must be greater than or equal to valid_from"));
            }
        },
        _ => {},
    }
    Ok(())
}

/// Checks a request to create a relation, in order: its trimmed predicate (1
/// to 128 characters), distinct endpoints, a confidence that is a finite
/// number in `[0, 1]` (`confidence_in_unit_interval`), and validity bounds
/// in order.  Gives the trimmed predicate.
pub fn prepare_relation(
    predicate: &str,
    subject_entity_id: u128,
    object_entity_id: u128,
    confidence_in_unit_interval: bool,
    valid_from: Option<Timestamp>,
    valid_until: Option<Timestamp>,
) -> (r: Result<String, ServiceError>)
    ensures
        ({
            let p = trim(predicate@);
            let bad_order = valid_from matches Some(f) && valid_until matches Some(u) && earlier(
                u,
                f,
            );
            &&& (p.len() == 0 || p.len() > 128) ==> (r matches Err(e) && is_bad_request(
                e,
                length_message("predicate"@, 128),
            ))
            &&& !(p.len() == 0 || p.len() > 128) && subject_entity_id == object_entity_id ==> (r matches Err(
                e,
            ) && is_bad_request(e, "subject_entity_id and object_entity_id must differ"@))
            &&& !(p.len() == 0 || p.len() > 128) && subject_entity_id != object_entity_id
                && !confidence_in_unit_interval ==> (r matches Err(e) && is_bad_request(
                e,
                "confidence must be a finite number between 0 and 1"@,
            ))
            &&& !(p.len() == 0 || p.len() > 128) && subject_entity_id != object_entity_id
                && confidence_in_unit_interval && bad_order ==> (r matches Err(e) && is_bad_request(
                e,
                "valid_until must be greater than or equal to valid_from"@,
            ))
            &&& !(p.len() == 0 || p.len() > 128) && subject_entity_id != object_entity_id
                && confidence_in_unit_interval && !bad_order ==> (r matches Ok(s) && s@ == p)
        }),
{
    let p = trimmed_string(predicate);
    validate_nonempty("predicate", p.as_str(), 128)?;
    if subject_entity_id == object_entity_id {
        return Err(bad_request("subject_entity_id and object_entity_id must differ"));
    }
    if !confidence_in_unit_interval {
        return Err(bad_request("confidence must be a finite number between 0 and 1"));
    }
    check_relation_shape(subject_entity_id, object_entity_id, valid_from, valid_until)?;
    Ok(p)
}

/// Refuses a relation unless both of its entities belong to the owner
/// (`owned_entities` of the two were found) and its source, if it names one,
/// exists for the owner.
pub fn check_relation_references(owned_entities: i64, source_exists: Option<bool>) -> (r: Result<
    (),
    ServiceError,
>)
    ensures
        owned_entities != 2 ==> (r matches Err(e) && is_bad_request(
            e,
            "both relation entities must exist for the current owner"@,
        )),
        owned_entities == 2 && source_exists == Some(false) ==> (r matches Err(e) && is_bad_request(
            e,
            "relation source_id must exist for the current owner"@,
        )),
        owned_entities == 2 && source_exists != Some(false) ==> r is Ok,
{
    if owned_entities != 2 {
        return Err(bad_request("both relation entities must exist for the current owner"));
    }
    if source_exists == Some(false) {
        return Err(bad_request("relation source_id must exist for the current owner"));
    }
    Ok(())
}

/// Law: the normal form of an entity's aliases holds trimmed, non-blank
/// texts taken from the given aliases; none equals the canonical name up to
/// case; no two are equal up to case; and each non-blank alias is
/// represented, by itself or by an alias equal to it up to case, unless it
/// equals the canonical name up to case.
pub proof fn alias_normal_form_laws(aliases: Seq<Seq<char>>, canonical_key: Seq<char>, out: Seq<Seq<char>>)
    requires
        normalized_aliases(aliases, canonical_key, out),
    ensures
        forall|p: int|
            0 <= p < out.len() ==> trim(#[trigger] out[p]) == out[p] && out[p].len() > 0
                && spec_to_lowercase(out[p]) != canonical_key,
        forall|p: int, q: int|
            0 <= p < q < out.len() ==> spec_to_lowercase(#[trigger] out[p]) != spec_to_lowercase(
                #[trigger] out[q],
            ),
        forall|i: int|
            0 <= i < aliases.len() && trim(#[trigger] aliases[i]).len() > 0 && alias_key(aliases[i])
                != canonical_key ==> exists|p: int|
                0 <= p < out.len() && spec_to_lowercase(#[trigger] out[p]) == alias_key(aliases[i]),
{
    assert forall|p: int| 0 <= p < out.len() implies trim(#[trigger] out[p]) == out[p]
        && out[p].len() > 0 && spec_to_lowercase(out[p]) != canonical_key by {
        assert(is_kept_alias_text(aliases, canonical_key, out[p]));
        let i = choose|i: int|
            0 <= i < aliases.len() && #[trigger] alias_kept(aliases, canonical_key, i) && trim(
                aliases[i],
            ) == out[p];
        crate::text::lemma_trim_idempotent(aliases[i]);
    }
    assert forall|p: int, q: int| 0 <= p < q < out.len() implies spec_to_lowercase(
        #[trigger] out[p],
    ) != spec_to_lowercase(#[trigger] out[q]) by {
        crate::text::lemma_lex_order(spec_to_lowercase(out[p]), spec_to_lowercase(out[q]));
    }
    assert forall|i: int|
        0 <= i < aliases.len() && trim(#[trigger] aliases[i]).len() > 0 && alias_key(aliases[i])
            != canonical_key implies exists|p: int|
        0 <= p < out.len() && spec_to_lowercase(#[trigger] out[p]) == alias_key(aliases[i]) by {
        // The first alias with the same key is kept.
        let j = lemma_first_with_key(aliases, canonical_key, i);
        assert(out.contains(trim(aliases[j])));
        let p = choose|p: int| 0 <= p < out.len() && out[p] == trim(aliases[j]);
        assert(spec_to_lowercase(out[p]) == alias_key(aliases[i]));
    }
}

/// Among the non-blank aliases up to `i` with the key of alias `i`, the first
/// is kept.
proof fn lemma_first_with_key(aliases: Seq<Seq<char>>, canonical_key: Seq<char>, i: int) -> (j: int)
    requires
        0 <= i < aliases.len(),
        trim(aliases[i]).len() > 0,
        alias_key(aliases[i]) != canonical_key,
    ensures
        0 <= j <= i,
        alias_kept(aliases, canonical_key, j),
        alias_key(aliases[j]) == alias_key(aliases[i]),
    decreases i,
{
    if alias_kept(aliases, canonical_key, i) {
        i
    } else {
        let k = choose|k: int|
            0 <= k < i && trim(aliases[k]).len() > 0 && alias_key(aliases[k]) == alias_key(
                aliases[i],
            );
        lemma_first_with_key(aliases, canonical_key, k)
    }
}

/// Checks the outcome of inserting an entity: nothing is inserted when the
/// owner already has an entity of the same type and canonical name.
pub fn check_entity_inserted(inserted: bool) -> (r: Result<(), ServiceError>)
    ensures
        inserted ==> r is Ok,
        !inserted ==> (r matches Err(e) && is_conflict(
            e,
            "entity with the same type and canonical_name already exists"@,
        )),
{
    if inserted {
        Ok(())
    } else {
        Err(conflict("entity with the same type and canonical_name already exists"))
    }
}

/// Lexicographic order is transitive.
proof fn lemma_lex_transitive(a: Seq<char>, b: Seq<char>, c: Seq<char>)
    requires
        lex_lt(a, b),
        lex_lt(b, c),
    ensures
        lex_lt(a, c),
    decreases a.len(),
{
    if a.len() > 0 && b.len() > 0 && c.len() > 0 && a[0] == b[0] && b[0] == c[0] {
        lemma_lex_transitive(a.drop_first(), b.drop_first(), c.drop_first());
    }
    if a.len() > 0 && b.len() > 0 && c.len() > 0 {
        vstd::utf8::char_u32_cast(a[0], a[0] as u32);
        vstd::utf8::char_u32_cast(c[0], c[0] as u32);
    }
}

} // verus!
