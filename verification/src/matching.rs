//! Matching a query against an item's search fields: exact (substring)
//! matching, and nucleo's fuzzy matching field by field. The scores the
//! application derives from a match are floating point; finding the matches
//! is done here.

use vstd::prelude::*;
use vstd::string::*;
use vstd::utf8::encode_utf8;

use nucleo_matcher::pattern::{Atom, AtomKind, CaseMatching, Normalization};

use crate::text::{lowercase, str_views, to_lowercase};

verus! {

/// Where `needle` first occurs in `hay` at or after byte `i`; -1 if nowhere.
pub open spec fn find_bytes_from(hay: Seq<u8>, needle: Seq<u8>, i: int) -> int
    decreases hay.len() + 1 - i,
{
    if i < 0 || i + needle.len() > hay.len() {
        -1
    } else if hay.subrange(i, i + needle.len()) == needle {
        i
    } else {
        find_bytes_from(hay, needle, i + 1)
    }
}

/// Where `needle` first occurs in `hay`; -1 if nowhere.
pub open spec fn find_bytes(hay: Seq<u8>, needle: Seq<u8>) -> int {
    find_bytes_from(hay, needle, 0)
}

/// Whether `needle` occurs in `hay` at byte `i`.
fn bytes_at(hay: &[u8], i: usize, needle: &[u8]) -> (r: bool)
    requires
        i + needle@.len() <= hay@.len(),
    ensures
        r == (hay@.subrange(i as int, i + needle@.len()) == needle@),
{
    let hay_len = hay.len();
    let mut k: usize = 0;
    while k < needle.len()
        invariant
            hay_len == hay@.len(),
            i + needle@.len() <= hay@.len(),
            k <= needle@.len(),
            forall|j: int| 0 <= j < k ==> hay@[i + j] == needle@[j],
        decreases needle@.len() - k,
    {
        if hay[i + k] != needle[k] {
            assert(hay@.subrange(i as int, i + needle@.len())[k as int] != needle@[k as int]);
            return false;
        }
        k = k + 1;
    }
    assert(hay@.subrange(i as int, i + needle@.len()) =~= needle@);
    true
}

/// The first byte offset of `needle` in `hay`.
pub fn find_sub(hay: &[u8], needle: &[u8]) -> (r: Option<usize>)
    ensures
        match r {
            Some(i) => i as int == find_bytes(hay@, needle@),
            None => find_bytes(hay@, needle@) == -1,
        },
{
    if needle.len() > hay.len() {
        return None;
    }
    let last = hay.len() - needle.len();
    let mut i: usize = 0;
    loop
        invariant
            last + needle@.len() == hay@.len(),
            i <= last,
            find_bytes(hay@, needle@) == find_bytes_from(hay@, needle@, i as int),
        decreases last - i,
    {
        if bytes_at(hay, i, needle) {
            return Some(i);
        }
        if i == last {
            assert(find_bytes_from(hay@, needle@, i + 1) == -1);
            return None;
        }
        i = i + 1;
    }
}

/// The first search field, from field `k` on, in which the query occurs
/// (both lower-cased), and the byte offset of the occurrence there.
pub open spec fn exact_hit_from(fields: Seq<Seq<char>>, q: Seq<char>, k: int) -> Option<(int, int)>
    decreases fields.len() - k,
{
    if k < 0 || k >= fields.len() {
        None
    } else {
        let p = find_bytes(encode_utf8(lowercase(fields[k])), encode_utf8(lowercase(q)));
        if p >= 0 {
            Some((k, p))
        } else {
            exact_hit_from(fields, q, k + 1)
        }
    }
}

/// Where the query first occurs in an item's search fields, compared
/// lower-cased: the field's index and the byte offset in the lower-cased
/// field. `None` when no field holds it.
pub fn exact_hit(fields: &[String], query: &str) -> (r: Option<(usize, usize)>)
    ensures
        match exact_hit_from(str_views(fields@), query@, 0) {
            Some((k, p)) => r == Some((k as usize, p as usize)),
            None => r is None,
        },
{
    let ql = to_lowercase(query);
    let qb = ql.as_str().as_bytes();
    let mut k: usize = 0;
    while k < fields.len()
        invariant
            k <= fields@.len(),
            qb@ == encode_utf8(lowercase(query@)),
            exact_hit_from(str_views(fields@), query@, 0) == exact_hit_from(
                str_views(fields@),
                query@,
                k as int,
            ),
        decreases fields@.len() - k,
    {
        let fl = to_lowercase(fields[k].as_str());
        let fb = fl.as_str().as_bytes();
        assert(str_views(fields@)[k as int] == fields@[k as int]@);
        match find_sub(fb, qb) {
            Some(p) => {
                return Some((k, p));
            },
            None => {},
        }
        k = k + 1;
    }
    None
}

/// What [`find_bytes_from`] finds is the first occurrence at or after `i`.
pub proof fn lemma_find_bytes_from(hay: Seq<u8>, needle: Seq<u8>, i: int)
    requires
        0 <= i,
    ensures
        ({
            let r = find_bytes_from(hay, needle, i);
            &&& r == -1 || (i <= r && r + needle.len() <= hay.len() && hay.subrange(
                r,
                r + needle.len(),
            ) == needle)
            &&& forall|j: int|
                i <= j && j + needle.len() <= hay.len() && (r == -1 || j < r) ==> #[trigger] hay.subrange(
                    j,
                    j + needle.len(),
                ) != needle
        }),
    decreases hay.len() + 1 - i,
{
    if i + needle.len() <= hay.len() && hay.subrange(i, i + needle.len()) != needle {
        lemma_find_bytes_from(hay, needle, i + 1);
    }
}

/// What [`exact_hit_from`] finds is the first field, from `k` on, that holds
/// the query, at the first place it holds it.
pub proof fn lemma_exact_hit_from(fields: Seq<Seq<char>>, q: Seq<char>, k: int)
    requires
        0 <= k,
    ensures
        match exact_hit_from(fields, q, k) {
            Some((j, p)) => k <= j < fields.len() && p == find_bytes(
                encode_utf8(lowercase(fields[j])),
                encode_utf8(lowercase(q)),
            ) && p >= 0 && forall|m: int|
                k <= m < j ==> find_bytes(encode_utf8(lowercase(#[trigger] fields[m])), encode_utf8(lowercase(q)))
                    == -1,
            None => forall|m: int|
                k <= m < fields.len() ==> find_bytes(
                    encode_utf8(lowercase(#[trigger] fields[m])),
                    encode_utf8(lowercase(q)),
                ) == -1,
        },
    decreases fields.len() - k,
{
    if k < fields.len() {
        lemma_exact_hit_from(fields, q, k + 1);
        let p = find_bytes(encode_utf8(lowercase(fields[k])), encode_utf8(lowercase(q)));
        if p < 0 {
            lemma_find_bytes_from(encode_utf8(lowercase(fields[k])), encode_utf8(lowercase(q)), 0);
            assert(p == -1);
            assert(exact_hit_from(fields, q, k) == exact_hit_from(fields, q, k + 1));
        }
    }
}

// ── Fuzzy matching ─────────────────────────────────────────────

/// What nucleo's fuzzy matcher finds of `query` in `field`: its score and
/// the positions of the matched characters, or nothing.
pub uninterp spec fn fuzzy_match(query: Seq<char>, field: Seq<char>) -> Option<(u32, Seq<u32>)>;

/// A fuzzy match, as values.
pub open spec fn fuzzy_view(m: Option<(u32, Vec<u32>)>) -> Option<(u32, Seq<u32>)> {
    match m {
        Some((s, v)) => Some((s, v@)),
        None => None,
    }
}

/// nucleo's fuzzy match of `query` in `field`: an `Atom` of kind `Fuzzy`,
/// case ignored and smart normalization, matched by `Atom::indices` with a
/// `Matcher` of the default configuration. Its score and matched positions
/// depend on the two strings alone; they are named, not written out.
#[verifier::external_body]
fn nucleo_fuzzy_indices(query: &str, field: &str) -> (r: Option<(u32, Vec<u32>)>)
    ensures
        fuzzy_view(r) == fuzzy_match(query@, field@),
{
    let mut matcher = nucleo_matcher::Matcher::new(nucleo_matcher::Config::DEFAULT);
    let atom = Atom::new(query, CaseMatching::Ignore, Normalization::Smart, AtomKind::Fuzzy, false);
    let mut buf = Vec::new();
    let mut indices = Vec::new();
    match atom.indices(nucleo_matcher::Utf32Str::new(field, &mut buf), &mut matcher, &mut indices) {
        Some(score) => Some((score as u32, indices)),
        None => None,
    }
}

/// The fuzzy match of `query` in each of `fields`, in order.
pub fn fuzzy_field_matches(fields: &[String], query: &str) -> (r: Vec<Option<(u32, Vec<u32>)>>)
    ensures
        r@.len() == fields@.len(),
        forall|i: int| 0 <= i < fields@.len() ==> fuzzy_view(#[trigger] r@[i]) == fuzzy_match(query@, fields@[i]@),
{
    let mut r: Vec<Option<(u32, Vec<u32>)>> = Vec::new();
    let mut i: usize = 0;
    while i < fields.len()
        invariant
            i <= fields@.len(),
            r@.len() == i,
            forall|j: int| 0 <= j < i ==> fuzzy_view(#[trigger] r@[j]) == fuzzy_match(query@, fields@[j]@),
        decreases fields@.len() - i,
    {
        let m = nucleo_fuzzy_indices(query, fields[i].as_str());
        r.push(m);
        i = i + 1;
    }
    r
}

} // verus!
