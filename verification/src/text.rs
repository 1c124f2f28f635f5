//! Character-sequence helpers shared by the rest of the library.

use vstd::prelude::*;
use vstd::string::*;

verus! {

/// Number of occurrences of `c` in `s`.
pub open spec fn count_char(s: Seq<char>, c: char) -> nat
    decreases s.len(),
{
    if s.len() == 0 {
        0
    } else {
        count_char(s.drop_last(), c) + if s.last() == c { 1nat } else { 0nat }
    }
}

/// Index of the last occurrence of `c` in `s`, or -1.
pub open spec fn last_index_of(s: Seq<char>, c: char) -> int
    decreases s.len(),
{
    if s.len() == 0 {
        -1
    } else if s.last() == c {
        s.len() - 1
    } else {
        last_index_of(s.drop_last(), c)
    }
}

/// Index of the first occurrence of `c` in `s`, or -1.
pub open spec fn first_index_of(s: Seq<char>, c: char) -> int
    decreases s.len(),
{
    if s.len() == 0 {
        -1
    } else if s[0] == c {
        0
    } else {
        let r = first_index_of(s.drop_first(), c);
        if r < 0 { -1 } else { r + 1 }
    }
}

/// `p` is a prefix of `s`.
pub open spec fn has_prefix(s: Seq<char>, p: Seq<char>) -> bool {
    p.len() <= s.len() && s.take(p.len() as int) == p
}

/// `p` occurs in `s` starting at index `i`.
pub open spec fn occurs_at(s: Seq<char>, p: Seq<char>, i: int) -> bool {
    0 <= i && i + p.len() <= s.len() && s.subrange(i, i + p.len()) == p
}

/// `p` occurs somewhere in `s`.
pub open spec fn has_substring(s: Seq<char>, p: Seq<char>) -> bool {
    exists|i: int| occurs_at(s, p, i)
}

/// Unicode lower-case mapping of a string, as computed by `str::to_lowercase`.
pub uninterp spec fn lowercase(s: Seq<char>) -> Seq<char>;

/// Calls `str::to_lowercase`. The contract claims only that the result is the
/// lower-case mapping of the input, a function of the input alone; the Unicode
/// mapping tables themselves are not stated.
#[verifier::external_body]
pub(crate) fn to_lowercase(s: &str) -> (r: String)
    ensures
        r@ == lowercase(s@),
{
    s.to_lowercase()
}

/// Calls `String::push`: appends one character.
#[verifier::external_body]
pub(crate) fn push_char(s: &mut String, c: char)
    ensures
        final(s)@ == old(s)@.push(c),
{
    s.push(c)
}

/// The characters of a string slice, in order.
pub fn chars_of(s: &str) -> (v: Vec<char>)
    ensures
        v@ == s@,
{
    let n = s.unicode_len();
    let mut v: Vec<char> = Vec::new();
    let mut i: usize = 0;
    while i < n
        invariant
            n == s@.len(),
            i <= n,
            v@ == s@.take(i as int),
        decreases n - i,
    {
        let c = s.get_char(i);
        v.push(c);
        i = i + 1;
        assert(v@ =~= s@.take(i as int));
    }
    assert(v@ =~= s@);
    v
}

/// The string made of the given characters.
pub fn string_of(v: &[char]) -> (s: String)
    ensures
        s@ == v@,
{
    let mut s = String::new();
    let mut i: usize = 0;
    while i < v.len()
        invariant
            i <= v@.len(),
            s@ == v@.take(i as int),
        decreases v@.len() - i,
    {
        push_char(&mut s, v[i]);
        i = i + 1;
        assert(s@ =~= v@.take(i as int));
    }
    assert(v@.take(v@.len() as int) =~= v@);
    s
}

/// Characters `from..to` of `v` as a string.
pub fn string_of_range(v: &[char], from: usize, to: usize) -> (s: String)
    requires
        from <= to <= v@.len(),
    ensures
        s@ == v@.subrange(from as int, to as int),
{
    let mut s = String::new();
    let mut i: usize = from;
    while i < to
        invariant
            from <= i <= to,
            to <= v@.len(),
            s@ == v@.subrange(from as int, i as int),
        decreases to - i,
    {
        push_char(&mut s, v[i]);
        i = i + 1;
        assert(s@ =~= v@.subrange(from as int, i as int));
    }
    s
}

/// Equality of two string slices.
pub fn str_eq(a: &str, b: &str) -> (r: bool)
    ensures
        r == (a@ == b@),
{
    let x = a.to_owned();
    let y = b.to_owned();
    x == y
}

/// Equality of two character slices.
pub fn chars_eq(a: &[char], b: &[char]) -> (r: bool)
    ensures
        r == (a@ == b@),
{
    if a.len() != b.len() {
        return false;
    }
    let mut i: usize = 0;
    while i < a.len()
        invariant
            a@.len() == b@.len(),
            i <= a@.len(),
            a@.take(i as int) == b@.take(i as int),
        decreases a@.len() - i,
    {
        if a[i] != b[i] {
            assert(a@[i as int] != b@[i as int]);
            return false;
        }
        i = i + 1;
        assert(a@.take(i as int) =~= b@.take(i as int));
    }
    assert(a@ =~= a@.take(a@.len() as int));
    assert(b@ =~= b@.take(b@.len() as int));
    true
}

/// Whether `p` is a prefix of `s`.
pub fn starts_with(s: &[char], p: &[char]) -> (r: bool)
    ensures
        r == has_prefix(s@, p@),
{
    if p.len() > s.len() {
        return false;
    }
    let mut i: usize = 0;
    while i < p.len()
        invariant
            p@.len() <= s@.len(),
            i <= p@.len(),
            s@.take(i as int) == p@.take(i as int),
        decreases p@.len() - i,
    {
        if s[i] != p[i] {
            assert(s@.take(p@.len() as int)[i as int] != p@[i as int]);
            return false;
        }
        i = i + 1;
        assert(s@.take(i as int) =~= p@.take(i as int));
    }
    assert(p@ =~= p@.take(p@.len() as int));
    true
}

/// The character views of a sequence of strings.
pub open spec fn str_views(v: Seq<String>) -> Seq<Seq<char>> {
    v.map_values(|s: String| s@)
}

/// Index of the last occurrence of `k` in `s`, or -1.
pub open spec fn index_of_str(s: Seq<Seq<char>>, k: Seq<char>) -> int
    decreases s.len(),
{
    if s.len() == 0 {
        -1
    } else if s.last() == k {
        s.len() - 1
    } else {
        index_of_str(s.drop_last(), k)
    }
}

pub proof fn lemma_index_of_str(s: Seq<Seq<char>>, k: Seq<char>)
    ensures
        -1 <= index_of_str(s, k) < s.len(),
        index_of_str(s, k) >= 0 ==> s[index_of_str(s, k)] == k,
        forall|j: int| index_of_str(s, k) < j < s.len() ==> s[j] != k,
        index_of_str(s, k) == -1 <==> !s.contains(k),
        s.no_duplicates() ==> forall|j: int| 0 <= j < s.len() && s[j] == k ==> j == index_of_str(s, k),
    decreases s.len(),
{
    if s.len() > 0 {
        lemma_index_of_str(s.drop_last(), k);
        if s.last() != k {
            assert forall|j: int| index_of_str(s, k) < j < s.len() implies s[j] != k by {
                if j < s.len() - 1 {
                    assert(s[j] == s.drop_last()[j]);
                }
            }
            if s.contains(k) {
                let j = choose|j: int| 0 <= j < s.len() && s[j] == k;
                assert(s.drop_last()[j] == k);
            }
            if index_of_str(s, k) >= 0 {
                assert(s.contains(k));
            }
        } else {
            assert(s.contains(k)) by {
                assert(s[s.len() - 1] == k);
            }
        }
    }
}

/// Finds the last position of `k` in `v`.
pub fn find_str(v: &[String], k: &str) -> (r: Option<usize>)
    ensures
        match r {
            Some(i) => i == index_of_str(str_views(v@), k@),
            None => index_of_str(str_views(v@), k@) == -1,
        },
{
    let key = k.to_owned();
    let mut j = v.len();
    assert(str_views(v@).take(j as int) =~= str_views(v@));
    while j > 0
        invariant
            j <= v@.len(),
            key@ == k@,
            index_of_str(str_views(v@), k@) == index_of_str(str_views(v@).take(j as int), k@),
        decreases j,
    {
        if v[j - 1] == key {
            return Some(j - 1);
        }
        assert(str_views(v@).take(j as int).drop_last() =~= str_views(v@).take(j - 1));
        j = j - 1;
    }
    None
}

/// Index of the first element of `s` whose key is `k`, or -1.
pub open spec fn first_keyed<A>(s: Seq<A>, key: spec_fn(A) -> Seq<char>, k: Seq<char>) -> int
    decreases s.len(),
{
    if s.len() == 0 {
        -1
    } else if key(s[0]) == k {
        0
    } else {
        let r = first_keyed(s.drop_first(), key, k);
        if r < 0 { -1 } else { r + 1 }
    }
}

/// `s` without the elements whose key is `k`.
pub open spec fn drop_keyed<A>(s: Seq<A>, key: spec_fn(A) -> Seq<char>, k: Seq<char>) -> Seq<A>
    decreases s.len(),
{
    if s.len() == 0 {
        s
    } else if key(s.last()) == k {
        drop_keyed(s.drop_last(), key, k)
    } else {
        drop_keyed(s.drop_last(), key, k).push(s.last())
    }
}

pub proof fn lemma_first_keyed<A>(s: Seq<A>, key: spec_fn(A) -> Seq<char>, k: Seq<char>, i: int)
    requires
        0 <= i <= s.len(),
        forall|j: int| 0 <= j < i ==> key(s[j]) != k,
    ensures
        i < s.len() && key(s[i]) == k ==> first_keyed(s, key, k) == i,
        i == s.len() ==> first_keyed(s, key, k) == -1,
    decreases s.len(),
{
    if s.len() > 0 && i > 0 {
        assert forall|j: int| 0 <= j < i - 1 implies key(s.drop_first()[j]) != k by {
            assert(s.drop_first()[j] == s[j + 1]);
        }
        lemma_first_keyed(s.drop_first(), key, k, i - 1);
        assert(key(s[0]) != k);
    }
}

pub proof fn lemma_first_keyed_bounds<A>(s: Seq<A>, key: spec_fn(A) -> Seq<char>, k: Seq<char>)
    ensures
        -1 <= first_keyed(s, key, k) < s.len(),
        first_keyed(s, key, k) >= 0 ==> key(s[first_keyed(s, key, k)]) == k,
    decreases s.len(),
{
    if s.len() > 0 && key(s[0]) != k {
        lemma_first_keyed_bounds(s.drop_first(), key, k);
        let r = first_keyed(s.drop_first(), key, k);
        if r >= 0 {
            assert(s.drop_first()[r] == s[r + 1]);
        }
    }
}

/// The identity key of a string.
pub open spec fn str_key() -> spec_fn(Seq<char>) -> Seq<char> {
    |x: Seq<char>| x
}

/// Finds the first position of `k` in `v`.
pub fn position_str(v: &Vec<String>, k: &str) -> (r: Option<usize>)
    ensures
        match r {
            Some(i) => i as int == first_keyed(str_views(v@), str_key(), k@),
            None => first_keyed(str_views(v@), str_key(), k@) == -1,
        },
{
    let key = k.to_owned();
    let mut i: usize = 0;
    while i < v.len()
        invariant
            i <= v@.len(),
            key@ == k@,
            forall|j: int| 0 <= j < i ==> str_key()(str_views(v@)[j]) != k@,
        decreases v@.len() - i,
    {
        if v[i] == key {
            proof {
                lemma_first_keyed(str_views(v@), str_key(), k@, i as int);
            }
            return Some(i);
        }
        i = i + 1;
    }
    proof {
        lemma_first_keyed(str_views(v@), str_key(), k@, i as int);
    }
    None
}

/// `v` without the strings equal to `k`.
pub fn without_str(v: &Vec<String>, k: &str) -> (r: Vec<String>)
    ensures
        str_views(r@) == drop_keyed(str_views(v@), str_key(), k@),
{
    let key = k.to_owned();
    let mut r: Vec<String> = Vec::new();
    let mut i: usize = 0;
    while i < v.len()
        invariant
            i <= v@.len(),
            key@ == k@,
            str_views(r@) == drop_keyed(str_views(v@).take(i as int), str_key(), k@),
        decreases v@.len() - i,
    {
        assert(str_views(v@).take(i + 1).drop_last() =~= str_views(v@).take(i as int));
        assert(str_views(v@).take(i + 1).last() == v@[i as int]@);
        if v[i] != key {
            let ghost old_r = r@;
            r.push(v[i].clone());
            assert(str_views(r@) =~= str_views(old_r).push(v@[i as int]@));
        }
        i = i + 1;
    }
    assert(str_views(v@).take(i as int) =~= str_views(v@));
    r
}

/// A copy of a vector of strings.
pub fn clone_strings(v: &Vec<String>) -> (r: Vec<String>)
    ensures
        r@ == v@,
{
    let mut r: Vec<String> = Vec::new();
    let mut i: usize = 0;
    while i < v.len()
        invariant
            i <= v@.len(),
            r@ == v@.take(i as int),
        decreases v@.len() - i,
    {
        r.push(v[i].clone());
        assert(r@ =~= v@.take(i + 1));
        i = i + 1;
    }
    assert(v@.take(i as int) =~= v@);
    r
}

/// Unix path join, as `Path::join` does it: an absolute `rel` replaces
/// `base`; otherwise `rel` is appended, with a `/` unless `base` is empty or
/// already ends with one.
pub open spec fn joined_path(base: Seq<char>, rel: Seq<char>) -> Seq<char> {
    if rel.len() > 0 && rel[0] == '/' {
        rel
    } else if base.len() == 0 {
        rel
    } else if base.last() == '/' {
        base + rel
    } else {
        base.push('/') + rel
    }
}

/// Joins two path strings.
pub fn join_path(base: &str, rel: &str) -> (r: String)
    ensures
        r@ == joined_path(base@, rel@),
{
    let b = chars_of(base);
    let rv = chars_of(rel);
    if rv.len() > 0 && rv[0] == '/' {
        return rel.to_owned();
    }
    if b.len() == 0 {
        return rel.to_owned();
    }
    let mut out = base.to_owned();
    if b[b.len() - 1] != '/' {
        push_char(&mut out, '/');
    }
    out.append(rel);
    out
}

/// Whether `p` occurs in `s`.
pub fn contains_chars(s: &[char], p: &[char]) -> (r: bool)
    ensures
        r == has_substring(s@, p@),
{
    if p.len() > s.len() {
        assert forall|i: int| !occurs_at(s@, p@, i) by {}
        return false;
    }
    if p.len() == 0 {
        assert(s@.subrange(0, 0) =~= p@);
        assert(occurs_at(s@, p@, 0));
        return true;
    }
    let mut i: usize = 0;
    while i <= s.len() - p.len()
        invariant
            0 < p@.len() <= s@.len(),
            i <= s@.len() - p@.len() + 1,
            forall|j: int| 0 <= j < i ==> !occurs_at(s@, p@, j),
        decreases s@.len() - p@.len() + 1 - i,
    {
        let mut k: usize = 0;
        let mut same = true;
        assert(s@.subrange(i as int, i as int) =~= p@.take(0));
        while k < p.len()
            invariant
                p@.len() <= s@.len(),
                i + p@.len() <= s@.len(),
                s@.len() == s.len(),
                k <= p@.len(),
                same == (s@.subrange(i as int, i + k) == p@.take(k as int)),
            decreases p@.len() - k,
        {
            if s[i + k] != p[k] {
                same = false;
            }
            assert(same ==> s@.subrange(i as int, i + k + 1) =~= p@.take(k + 1));
            assert(!same ==> s@.subrange(i as int, i + k + 1) != p@.take(k + 1)) by {
                if !same {
                    if s@.subrange(i as int, i + k + 1) == p@.take(k + 1) {
                        if s@.subrange(i as int, i + k) != p@.take(k as int) {
                            assert(s@.subrange(i as int, i + k) =~= s@.subrange(i as int, i + k + 1).take(k as int));
                            assert(p@.take(k as int) =~= p@.take(k + 1).take(k as int));
                        } else {
                            assert(s@.subrange(i as int, i + k + 1)[k as int] == s@[i + k]);
                        }
                    }
                }
            }
            k = k + 1;
        }
        assert(p@.take(p@.len() as int) =~= p@);
        if same {
            assert(occurs_at(s@, p@, i as int));
            return true;
        }
        i = i + 1;
    }
    assert forall|j: int| !occurs_at(s@, p@, j) by {}
    false
}

/// The first character of the upper-case mapping of `c`.
pub uninterp spec fn upper_first(c: char) -> char;

/// Calls `char::to_uppercase` and takes its first character (the mapping is
/// never empty). The contract claims only that the result is a function of
/// `c`; the Unicode tables are not stated.
#[verifier::external_body]
pub(crate) fn char_upper_first(c: char) -> (r: char)
    ensures
        r == upper_first(c),
{
    c.to_uppercase().next().unwrap_or(c)
}

/// The character view of an optional string.
pub open spec fn opt_view(o: Option<String>) -> Option<Seq<char>> {
    match o {
        Some(s) => Some(s@),
        None => None,
    }
}

/// The value stored under `name` in a list of pairs (its last entry), if any.
pub open spec fn pair_lookup(pairs: Seq<(String, String)>, name: Seq<char>) -> Option<Seq<char>>
    decreases pairs.len(),
{
    if pairs.len() == 0 {
        None
    } else if pairs.last().0@ == name {
        Some(pairs.last().1@)
    } else {
        pair_lookup(pairs.drop_last(), name)
    }
}

/// Looks up the value stored under `name` (its last entry).
pub fn lookup_pair<'a>(pairs: &'a Vec<(String, String)>, name: &str) -> (r: Option<&'a String>)
    ensures
        match r {
            Some(v) => pair_lookup(pairs@, name@) == Some(v@),
            None => pair_lookup(pairs@, name@) is None,
        },
{
    let key = name.to_owned();
    let mut j = pairs.len();
    assert(pairs@.take(j as int) =~= pairs@);
    while j > 0
        invariant
            j <= pairs@.len(),
            key@ == name@,
            pair_lookup(pairs@, name@) == pair_lookup(pairs@.take(j as int), name@),
        decreases j,
    {
        assert(pairs@.take(j as int).last() == pairs@[j - 1]);
        if pairs[j - 1].0 == key {
            return Some(&pairs[j - 1].1);
        }
        assert(pairs@.take(j as int).drop_last() =~= pairs@.take(j - 1));
        j = j - 1;
    }
    None
}


/// Lexicographic order of character sequences, by code point: what `<` on
/// `String` computes for valid text.
pub open spec fn lex_lt(a: Seq<char>, b: Seq<char>) -> bool
    decreases a.len(),
{
    if a.len() == 0 {
        b.len() > 0
    } else if b.len() == 0 {
        false
    } else if a[0] != b[0] {
        (a[0] as int) < (b[0] as int)
    } else {
        lex_lt(a.drop_first(), b.drop_first())
    }
}

pub proof fn lemma_lex_irreflexive(a: Seq<char>)
    ensures
        !lex_lt(a, a),
    decreases a.len(),
{
    if a.len() > 0 {
        lemma_lex_irreflexive(a.drop_first());
    }
}

pub proof fn lemma_lex_transitive(a: Seq<char>, b: Seq<char>, c: Seq<char>)
    requires
        lex_lt(a, b),
        lex_lt(b, c),
    ensures
        lex_lt(a, c),
    decreases a.len(),
{
    if a.len() > 0 && b.len() > 0 && c.len() > 0 && a[0] == b[0] && b[0] == c[0] {
        lemma_lex_transitive(a.drop_first(), b.drop_first(), c.drop_first());
    }
}

pub proof fn lemma_lex_total(a: Seq<char>, b: Seq<char>)
    ensures
        a == b || lex_lt(a, b) || lex_lt(b, a),
    decreases a.len(),
{
    if a.len() > 0 && b.len() > 0 && a[0] == b[0] {
        lemma_lex_total(a.drop_first(), b.drop_first());
        if a.drop_first() == b.drop_first() {
            assert(a =~= seq![a[0]] + a.drop_first());
            assert(b =~= seq![b[0]] + b.drop_first());
        }
    } else if a.len() > 0 && b.len() > 0 {
        assert((a[0] as int) != (b[0] as int));
    } else if a.len() == 0 && b.len() == 0 {
        assert(a =~= b);
    }
}

pub proof fn lemma_lex_asymmetric(a: Seq<char>, b: Seq<char>)
    requires
        lex_lt(a, b),
    ensures
        !lex_lt(b, a),
{
    if lex_lt(b, a) {
        lemma_lex_transitive(a, b, a);
        lemma_lex_irreflexive(a);
    }
}

/// Whether `a` comes before `b` in lexicographic order.
pub fn str_lt(a: &str, b: &str) -> (r: bool)
    ensures
        r == lex_lt(a@, b@),
{
    let x = chars_of(a);
    let y = chars_of(b);
    let mut i: usize = 0;
    assert(a@.skip(0) =~= a@ && b@.skip(0) =~= b@);
    while i < x.len() && i < y.len() && x[i] == y[i]
        invariant
            i <= x@.len(),
            i <= y@.len(),
            x@ == a@,
            y@ == b@,
            lex_lt(a@, b@) == lex_lt(a@.skip(i as int), b@.skip(i as int)),
        decreases x@.len() - i,
    {
        assert(a@.skip(i as int).drop_first() =~= a@.skip(i + 1));
        assert(b@.skip(i as int).drop_first() =~= b@.skip(i + 1));
        i = i + 1;
    }
    if i == x.len() {
        i < y.len()
    } else if i == y.len() {
        false
    } else {
        x[i] < y[i]
    }
}

/// Strictly increasing in lexicographic order: sorted, without duplicates.
pub open spec fn strictly_sorted(s: Seq<Seq<char>>) -> bool {
    forall|i: int, j: int| 0 <= i < j < s.len() ==> lex_lt(#[trigger] s[i], #[trigger] s[j])
}

/// Adds `s` to a strictly sorted list of strings, keeping it strictly sorted;
/// nothing changes if `s` is already there.
pub fn sorted_insert(v: &mut Vec<String>, s: String)
    requires
        strictly_sorted(str_views(old(v)@)),
    ensures
        strictly_sorted(str_views(final(v)@)),
        str_views(final(v)@).to_set() == str_views(old(v)@).to_set().insert(s@),
{
    let ghost o = str_views(v@);
    let mut i: usize = 0;
    while i < v.len() && str_lt(v[i].as_str(), s.as_str())
        invariant
            i <= v@.len(),
            o == str_views(v@),
            strictly_sorted(o),
            forall|j: int| 0 <= j < i ==> lex_lt(#[trigger] o[j], s@),
        decreases v@.len() - i,
    {
        i = i + 1;
    }
    if i < v.len() && str_eq(v[i].as_str(), s.as_str()) {
        assert(o.to_set().insert(s@) =~= o.to_set()) by {
            assert(o[i as int] == s@);
        }
        return;
    }
    proof {
        if i < o.len() {
            lemma_lex_total(o[i as int], s@);
        }
    }
    let ghost sv = s@;
    v.insert(i, s);
    let ghost n = str_views(v@);
    assert(n =~= o.take(i as int).push(sv) + o.skip(i as int));
    assert forall|a: int, b: int| 0 <= a < b < n.len() implies lex_lt(#[trigger] n[a], #[trigger] n[b]) by {
        if b < i {
        } else if b == i {
            assert(lex_lt(o[a], sv));
        } else if a < i {
            assert(lex_lt(o[a], sv));
            assert(lex_lt(sv, o[i as int]));
            if b - 1 > i {
                lemma_lex_transitive(sv, o[i as int], o[b - 1]);
            }
            lemma_lex_transitive(o[a], sv, o[b - 1]);
        } else if a == i {
            if b - 1 > i {
                lemma_lex_transitive(sv, o[i as int], o[b - 1]);
            }
        } else {
            assert(n[a] == o[a - 1] && n[b] == o[b - 1]);
        }
    }
    assert(n.to_set() =~= o.to_set().insert(sv)) by {
        assert forall|x: Seq<char>| n.contains(x) <==> o.contains(x) || x == sv by {
            if n.contains(x) {
                let j = choose|j: int| 0 <= j < n.len() && n[j] == x;
                if j < i {
                    assert(o[j] == x);
                } else if j > i {
                    assert(o[j - 1] == x);
                }
            }
            if o.contains(x) {
                let j = choose|j: int| 0 <= j < o.len() && o[j] == x;
                if j < i {
                    assert(n[j] == x);
                } else {
                    assert(n[j + 1] == x);
                }
            }
            if x == sv {
                assert(n[i as int] == x);
            }
        }
    }
}


/// The user data directory: `$XDG_DATA_HOME`, else `$HOME/.local/share`,
/// else `./.local/share`.
pub open spec fn data_home(xdg_data_home: Option<Seq<char>>, home: Option<Seq<char>>) -> Seq<char> {
    match xdg_data_home {
        Some(x) => x,
        None => joined_path(
            match home {
                Some(h) => h,
                None => "."@,
            },
            ".local/share"@,
        ),
    }
}

/// The path of a file of the launcher under the user data directory.
pub open spec fn data_file(
    xdg_data_home: Option<Seq<char>>,
    home: Option<Seq<char>>,
    name: Seq<char>,
) -> Seq<char> {
    joined_path(joined_path(data_home(xdg_data_home, home), "dioxus-launcher"@), name)
}

/// The view of an optional string slice.
pub open spec fn opt_str_view(o: Option<&str>) -> Option<Seq<char>> {
    match o {
        Some(s) => Some(s@),
        None => None,
    }
}

/// Path of the launcher file `name` under the user data directory, given the
/// values of `XDG_DATA_HOME` and `HOME` (`None` where unset).
pub fn data_file_path(xdg_data_home: Option<&str>, home: Option<&str>, name: &str) -> (r: String)
    ensures
        r@ == data_file(opt_str_view(xdg_data_home), opt_str_view(home), name@),
{
    let base = match xdg_data_home {
        Some(x) => x.to_owned(),
        None => {
            let h = match home {
                Some(h) => h,
                None => ".",
            };
            join_path(h, ".local/share")
        },
    };
    let dir = join_path(base.as_str(), "dioxus-launcher");
    join_path(dir.as_str(), name)
}


/// The pieces of `s` between occurrences of `sep`, as `str::split` gives
/// them (an empty `s` gives one empty piece).
pub open spec fn split_on(s: Seq<char>, sep: char) -> Seq<Seq<char>>
    decreases s.len(),
{
    if s.len() == 0 {
        seq![Seq::empty()]
    } else {
        let r = split_on(s.drop_last(), sep);
        if s.last() == sep {
            r.push(Seq::empty())
        } else {
            r.update(r.len() - 1, r.last().push(s.last()))
        }
    }
}

pub proof fn lemma_split_on_len(s: Seq<char>, sep: char)
    ensures
        split_on(s, sep).len() >= 1,
    decreases s.len(),
{
    if s.len() > 0 {
        lemma_split_on_len(s.drop_last(), sep);
    }
}

/// Splits `s` at each occurrence of `sep`.
pub fn split_at_char(s: &str, sep: char) -> (r: Vec<String>)
    ensures
        str_views(r@) == split_on(s@, sep),
{
    let v = chars_of(s);
    let mut r: Vec<String> = Vec::new();
    let mut start: usize = 0;
    let mut i: usize = 0;
    assert(v@.take(0) =~= Seq::<char>::empty());
    while i < v.len()
        invariant
            v@ == s@,
            start <= i <= v@.len(),
            split_on(v@.take(i as int), sep) == str_views(r@).push(v@.subrange(start as int, i as int)),
        decreases v@.len() - i,
    {
        assert(v@.take(i + 1).drop_last() =~= v@.take(i as int));
        proof {
            lemma_split_on_len(v@.take(i as int), sep);
        }
        if v[i] == sep {
            let piece = string_of_range(v.as_slice(), start, i);
            let ghost before = r@;
            r.push(piece);
            assert(str_views(r@) =~= str_views(before).push(v@.subrange(start as int, i as int)));
            start = i + 1;
            assert(v@.subrange(start as int, i + 1) =~= Seq::<char>::empty());
        } else {
            assert(v@.subrange(start as int, i + 1) =~= v@.subrange(start as int, i as int).push(v@[i as int]));
        }
        i = i + 1;
    }
    let last = string_of_range(v.as_slice(), start, v.len());
    let ghost before = r@;
    r.push(last);
    assert(str_views(r@) =~= str_views(before).push(v@.subrange(start as int, v@.len() as int)));
    assert(v@.take(v@.len() as int) =~= v@);
    r
}

/// The concatenation of `f` applied to each element of `s`, in order.
pub open spec fn concat_map<A>(s: Seq<A>, f: spec_fn(A) -> Seq<Seq<char>>) -> Seq<Seq<char>>
    decreases s.len(),
{
    if s.len() == 0 {
        Seq::empty()
    } else {
        concat_map(s.drop_last(), f) + f(s.last())
    }
}

/// Concatenates strings.
pub fn concat_strs(parts: &[&str]) -> (r: String)
    ensures
        r@ == parts@.map_values(|p: &str| p@).fold_left(Seq::<char>::empty(), |a: Seq<char>, b: Seq<char>| a + b),
{
    let mut s = String::new();
    let mut k: usize = 0;
    let ghost f = |a: Seq<char>, b: Seq<char>| a + b;
    assert(parts@.map_values(|p: &str| p@).take(0) =~= Seq::<Seq<char>>::empty());
    while k < parts.len()
        invariant
            k <= parts@.len(),
            f == |a: Seq<char>, b: Seq<char>| a + b,
            s@ == parts@.map_values(|p: &str| p@).take(k as int).fold_left(Seq::<char>::empty(), f),
        decreases parts@.len() - k,
    {
        s.append(parts[k]);
        assert(parts@.map_values(|p: &str| p@).take(k + 1).drop_last() =~= parts@.map_values(
            |p: &str| p@,
        ).take(k as int));
        k = k + 1;
    }
    assert(parts@.map_values(|p: &str| p@).take(k as int) =~= parts@.map_values(|p: &str| p@));
    s
}


/// The user configuration directory: `$XDG_CONFIG_HOME`, else
/// `$HOME/.config`, else `./.config`.
pub open spec fn config_home(xdg_config_home: Option<Seq<char>>, home: Option<Seq<char>>) -> Seq<char> {
    match xdg_config_home {
        Some(x) => x,
        None => joined_path(
            match home {
                Some(h) => h,
                None => "."@,
            },
            ".config"@,
        ),
    }
}

/// The path of an entry of the launcher under the user configuration directory.
pub open spec fn config_file(
    xdg_config_home: Option<Seq<char>>,
    home: Option<Seq<char>>,
    name: Seq<char>,
) -> Seq<char> {
    joined_path(joined_path(config_home(xdg_config_home, home), "dioxus-launcher"@), name)
}

/// Path of the launcher entry `name` under the user configuration
/// directory, given the values of `XDG_CONFIG_HOME` and `HOME` (`None` where unset).
pub fn config_file_path(xdg_config_home: Option<&str>, home: Option<&str>, name: &str) -> (r: String)
    ensures
        r@ == config_file(opt_str_view(xdg_config_home), opt_str_view(home), name@),
{
    let base = match xdg_config_home {
        Some(x) => x.to_owned(),
        None => {
            let h = match home {
                Some(h) => h,
                None => ".",
            };
            join_path(h, ".config")
        },
    };
    let dir = join_path(base.as_str(), "dioxus-launcher");
    join_path(dir.as_str(), name)
}


/// Unicode `White_Space`, as `char::is_whitespace` decides it.
pub open spec fn is_ws(c: char) -> bool {
    ('\u{9}' <= c && c <= '\u{d}') || c == ' ' || c == '\u{85}' || c == '\u{a0}' || c == '\u{1680}'
        || ('\u{2000}' <= c && c <= '\u{200a}') || c == '\u{2028}' || c == '\u{2029}' || c == '\u{202f}'
        || c == '\u{205f}' || c == '\u{3000}'
}

/// Whether `c` is white space.
pub fn is_whitespace(c: char) -> (r: bool)
    ensures
        r == is_ws(c),
{
    ('\u{9}' <= c && c <= '\u{d}') || c == ' ' || c == '\u{85}' || c == '\u{a0}' || c == '\u{1680}'
        || ('\u{2000}' <= c && c <= '\u{200a}') || c == '\u{2028}' || c == '\u{2029}' || c == '\u{202f}'
        || c == '\u{205f}' || c == '\u{3000}'
}

/// `s` without its leading white space.
pub open spec fn trim_start_ws(s: Seq<char>) -> Seq<char>
    decreases s.len(),
{
    if s.len() > 0 && is_ws(s[0]) {
        trim_start_ws(s.drop_first())
    } else {
        s
    }
}

/// `s` without its trailing white space.
pub open spec fn trim_end_ws(s: Seq<char>) -> Seq<char>
    decreases s.len(),
{
    if s.len() > 0 && is_ws(s.last()) {
        trim_end_ws(s.drop_last())
    } else {
        s
    }
}

/// `s` without leading and trailing white space, as `str::trim` gives it.
pub open spec fn trim_ws(s: Seq<char>) -> Seq<char> {
    trim_end_ws(trim_start_ws(s))
}

/// Where the white space at the start of `v[from..to]` ends.
fn skip_ws(v: &[char], from: usize, to: usize) -> (r: usize)
    requires
        from <= to <= v@.len(),
    ensures
        from <= r <= to,
        v@.subrange(r as int, to as int) == trim_start_ws(v@.subrange(from as int, to as int)),
    decreases to - from,
{
    if from < to && is_whitespace(v[from]) {
        assert(v@.subrange(from as int, to as int).drop_first() =~= v@.subrange(from + 1, to as int));
        skip_ws(v, from + 1, to)
    } else {
        from
    }
}

/// Where the white space at the end of `v[from..to]` begins.
fn skip_ws_back(v: &[char], from: usize, to: usize) -> (r: usize)
    requires
        from <= to <= v@.len(),
    ensures
        from <= r <= to,
        v@.subrange(from as int, r as int) == trim_end_ws(v@.subrange(from as int, to as int)),
    decreases to - from,
{
    if from < to && is_whitespace(v[to - 1]) {
        assert(v@.subrange(from as int, to as int).drop_last() =~= v@.subrange(from as int, to - 1));
        skip_ws_back(v, from, to - 1)
    } else {
        to
    }
}

/// The characters of `v[from..to]` without leading and trailing white space.
pub fn trim_range(v: &[char], from: usize, to: usize) -> (r: String)
    requires
        from <= to <= v@.len(),
    ensures
        r@ == trim_ws(v@.subrange(from as int, to as int)),
{
    let a = skip_ws(v, from, to);
    let b = skip_ws_back(v, a, to);
    string_of_range(v, a, b)
}

/// `s` without leading white space.
pub fn trim_start_str(s: &str) -> (r: String)
    ensures
        r@ == trim_start_ws(s@),
{
    let v = chars_of(s);
    let a = skip_ws(v.as_slice(), 0, v.len());
    assert(v@.subrange(0, v@.len() as int) =~= s@);
    string_of_range(v.as_slice(), a, v.len())
}

/// `s` without leading and trailing white space.
pub fn trim_str(s: &str) -> (r: String)
    ensures
        r@ == trim_ws(s@),
{
    let v = chars_of(s);
    assert(v@.subrange(0, v@.len() as int) =~= s@);
    trim_range(v.as_slice(), 0, v.len())
}

} // verus!
