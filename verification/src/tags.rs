//! Hierarchical tags.
//!
//! Tags are slash-separated paths like `audio/effects/reverb`. An item tagged
//! `audio/effects/reverb` also matches filters for `audio/effects` and `audio`.
//! The registry holds metadata for known tags and aliases that map shorthand
//! names to full tag paths.

use vstd::prelude::*;

use crate::text::{
    chars_eq, chars_of, count_char, find_str, has_prefix, index_of_str, last_index_of,
    lemma_index_of_str, lowercase, starts_with, str_views, string_of, to_lowercase,
};

verus! {

// ── Specification of tag paths ──────────────────────────────────

/// Removes leading `/` characters.
pub open spec fn trim_start_slashes(s: Seq<char>) -> Seq<char>
    decreases s.len(),
{
    if s.len() > 0 && s[0] == '/' {
        trim_start_slashes(s.drop_first())
    } else {
        s
    }
}

/// Removes trailing `/` characters.
pub open spec fn trim_end_slashes(s: Seq<char>) -> Seq<char>
    decreases s.len(),
{
    if s.len() > 0 && s.last() == '/' {
        trim_end_slashes(s.drop_last())
    } else {
        s
    }
}

/// Removes leading and trailing `/` characters.
pub open spec fn trim_slashes(s: Seq<char>) -> Seq<char> {
    trim_end_slashes(trim_start_slashes(s))
}

/// Replaces every `//` by `/`, scanning left to right without overlap.
pub open spec fn collapse_double_slashes(s: Seq<char>) -> Seq<char>
    decreases s.len(),
{
    if s.len() < 2 {
        s
    } else if s[0] == '/' && s[1] == '/' {
        seq!['/'] + collapse_double_slashes(s.skip(2))
    } else {
        seq![s[0]] + collapse_double_slashes(s.skip(1))
    }
}

/// The normal form of a tag path: lower-cased, slashes trimmed at both ends,
/// double slashes collapsed.
pub open spec fn normalize_tag_path(s: Seq<char>) -> Seq<char> {
    collapse_double_slashes(trim_slashes(lowercase(s)))
}

/// Number of segments of a path; the empty path has none.
pub open spec fn tag_depth(s: Seq<char>) -> nat {
    if s.len() == 0 {
        0
    } else {
        count_char(s, '/') + 1
    }
}

/// The last segment of a path.
pub open spec fn tag_leaf(s: Seq<char>) -> Seq<char> {
    s.subrange(last_index_of(s, '/') + 1, s.len() as int)
}

/// The path before the last `/`, if there is a `/`.
pub open spec fn tag_parent(s: Seq<char>) -> Option<Seq<char>> {
    let i = last_index_of(s, '/');
    if i >= 0 {
        Some(s.take(i))
    } else {
        None
    }
}

/// All ancestors of a path, most specific first.
pub open spec fn tag_ancestors(s: Seq<char>) -> Seq<Seq<char>>
    decreases s.len(),
{
    match tag_parent(s) {
        Some(p) => {
            proof {
                lemma_last_index_of_bounds(s, '/');
            }
            seq![p] + tag_ancestors(p)
        },
        None => Seq::empty(),
    }
}

/// `a` equals `b` or lies below it in the hierarchy.
pub open spec fn tag_is_under(a: Seq<char>, b: Seq<char>) -> bool {
    a == b || (b.len() < a.len() && a.take(b.len() as int) == b && a[b.len() as int] == '/')
}

/// What every tag path satisfies: it does not start with `/`.
pub open spec fn tag_path_wf(s: Seq<char>) -> bool {
    s.len() == 0 || s[0] != '/'
}

pub proof fn lemma_last_index_of_bounds(s: Seq<char>, c: char)
    ensures
        -1 <= last_index_of(s, c) < s.len(),
        last_index_of(s, c) >= 0 ==> s[last_index_of(s, c)] == c,
        forall|j: int| last_index_of(s, c) < j < s.len() ==> s[j] != c,
    decreases s.len(),
{
    if s.len() > 0 && s.last() != c {
        lemma_last_index_of_bounds(s.drop_last(), c);
        assert forall|j: int| last_index_of(s, c) < j < s.len() implies s[j] != c by {
            if j < s.len() - 1 {
                assert(s[j] == s.drop_last()[j]);
            }
        }
    }
}

pub proof fn lemma_count_char_bound(s: Seq<char>, c: char)
    ensures
        count_char(s, c) <= s.len(),
        s.len() > 0 && s[0] != c ==> count_char(s, c) < s.len(),
    decreases s.len(),
{
    if s.len() > 0 {
        lemma_count_char_bound(s.drop_last(), c);
        if s.len() > 1 {
            assert(s.drop_last()[0] == s[0]);
        }
    }
}

proof fn lemma_trim_start_shape(s: Seq<char>)
    ensures
        tag_path_wf(trim_start_slashes(s)),
    decreases s.len(),
{
    if s.len() > 0 && s[0] == '/' {
        lemma_trim_start_shape(s.drop_first());
    }
}

proof fn lemma_trim_end_keeps_first(s: Seq<char>)
    ensures
        tag_path_wf(s) ==> tag_path_wf(trim_end_slashes(s)),
    decreases s.len(),
{
    if s.len() > 0 && s.last() == '/' {
        if s.len() > 1 {
            assert(s.drop_last()[0] == s[0]);
        }
        lemma_trim_end_keeps_first(s.drop_last());
    }
}

proof fn lemma_normalized_wf(s: Seq<char>)
    ensures
        tag_path_wf(normalize_tag_path(s)),
{
    let t = trim_start_slashes(lowercase(s));
    lemma_trim_start_shape(lowercase(s));
    lemma_trim_end_keeps_first(t);
    let u = trim_slashes(lowercase(s));
    if u.len() >= 2 {
        assert(collapse_double_slashes(u)[0] == u[0]);
    }
}

// ── Tag ─────────────────────────────────────────────────────────

/// A tag: a slash-separated path string.
#[derive(Debug, PartialEq, Eq, Hash)]
pub struct Tag(String);

impl View for Tag {
    type V = Seq<char>;

    closed spec fn view(&self) -> Seq<char> {
        self.0@
    }
}

impl Clone for Tag {
    fn clone(&self) -> (r: Self)
        ensures
            r == *self,
    {
        proof {
            use_type_invariant(self);
        }
        Tag(self.0.clone())
    }
}

/// Keeps the characters `from..to` of a vector.
fn subvec(v: &Vec<char>, from: usize, to: usize) -> (r: Vec<char>)
    requires
        from <= to <= v@.len(),
    ensures
        r@ == v@.subrange(from as int, to as int),
{
    let mut r: Vec<char> = Vec::new();
    let mut i = from;
    while i < to
        invariant
            from <= i <= to <= v@.len(),
            r@ == v@.subrange(from as int, i as int),
        decreases to - i,
    {
        r.push(v[i]);
        i = i + 1;
        assert(r@ =~= v@.subrange(from as int, i as int));
    }
    r
}

/// Removes leading and trailing slashes.
fn trim_slashes_vec(v: &Vec<char>) -> (r: Vec<char>)
    ensures
        r@ == trim_slashes(v@),
{
    let n = v.len();
    let mut i: usize = 0;
    assert(v@.skip(0) =~= v@);
    while i < n && v[i] == '/'
        invariant
            n == v@.len(),
            i <= n,
            trim_start_slashes(v@) == trim_start_slashes(v@.skip(i as int)),
        decreases n - i,
    {
        assert(v@.skip(i as int).drop_first() =~= v@.skip(i + 1));
        i = i + 1;
    }
    assert(trim_start_slashes(v@.skip(i as int)) == v@.skip(i as int));
    let mut j: usize = n;
    assert(v@.subrange(i as int, n as int) =~= v@.skip(i as int));
    while j > i && v[j - 1] == '/'
        invariant
            n == v@.len(),
            i <= j <= n,
            trim_start_slashes(v@) == v@.subrange(i as int, n as int),
            trim_end_slashes(v@.subrange(i as int, n as int)) == trim_end_slashes(
                v@.subrange(i as int, j as int),
            ),
        decreases j - i,
    {
        assert(v@.subrange(i as int, j as int).drop_last() =~= v@.subrange(i as int, j - 1));
        j = j - 1;
    }
    let r = subvec(v, i, j);
    r
}

/// Collapses `//` into `/`, left to right.
fn collapse_vec(v: &Vec<char>) -> (r: Vec<char>)
    ensures
        r@ == collapse_double_slashes(v@),
{
    let n = v.len();
    let mut out: Vec<char> = Vec::new();
    let mut i: usize = 0;
    assert(v@.skip(0) =~= v@);
    while i < n
        invariant
            n == v@.len(),
            i <= n,
            collapse_double_slashes(v@) == out@ + collapse_double_slashes(v@.skip(i as int)),
        decreases n - i,
    {
        let ghost rest = v@.skip(i as int);
        if i + 1 < n && v[i] == '/' && v[i + 1] == '/' {
            out.push('/');
            assert(rest.skip(2) =~= v@.skip(i + 2));
            i = i + 2;
        } else {
            proof {
                if rest.len() < 2 {
                    assert(rest =~= seq![v@[i as int]]);
                    assert(v@.skip(i + 1) =~= Seq::<char>::empty());
                } else {
                    assert(rest.skip(1) =~= v@.skip(i + 1));
                }
            }
            out.push(v[i]);
            i = i + 1;
        }
        assert(collapse_double_slashes(v@) =~= out@ + collapse_double_slashes(v@.skip(i as int)));
    }
    assert(v@.skip(n as int) =~= Seq::<char>::empty());
    assert(out@ + Seq::<char>::empty() =~= out@);
    out
}

impl Tag {
    #[verifier::type_invariant]
    spec fn wf(self) -> bool {
        tag_path_wf(self.0@)
    }

    /// Builds a tag from a path, normalizing it: lower-cased, leading and
    /// trailing slashes trimmed, double slashes collapsed.
    pub fn new(path: &str) -> (r: Tag)
        ensures
            r@ == normalize_tag_path(path@),
    {
        let lower = to_lowercase(path);
        let v = chars_of(lower.as_str());
        let t = trim_slashes_vec(&v);
        let c = collapse_vec(&t);
        proof {
            lemma_normalized_wf(path@);
        }
        Tag(string_of(c.as_slice()))
    }

    /// The full tag path.
    pub fn path(&self) -> (r: &str)
        ensures
            r@ == self@,
    {
        self.0.as_str()
    }

    /// The path as an owned string.
    pub fn to_string(&self) -> (r: String)
        ensures
            r@ == self@,
    {
        self.0.clone()
    }

    /// Number of segments: `audio/effects/reverb` has depth 3.
    pub fn depth(&self) -> (r: usize)
        ensures
            r == tag_depth(self@),
    {
        proof {
            use_type_invariant(self);
        }
        let v = chars_of(self.0.as_str());
        if v.len() == 0 {
            return 0;
        }
        let mut count: usize = 0;
        let mut i: usize = 0;
        while i < v.len()
            invariant
                i <= v@.len(),
                count == count_char(v@.take(i as int), '/'),
            decreases v@.len() - i,
        {
            proof {
                lemma_count_char_bound(v@.take(i as int), '/');
            }
            assert(v@.take(i + 1).drop_last() =~= v@.take(i as int));
            if v[i] == '/' {
                count = count + 1;
            }
            i = i + 1;
        }
        assert(v@.take(v@.len() as int) =~= v@);
        proof {
            lemma_count_char_bound(v@, '/');
        }
        count + 1
    }

    /// Index of the last `/`, if any.
    fn last_slash(v: &Vec<char>) -> (r: Option<usize>)
        ensures
            match r {
                Some(k) => k == last_index_of(v@, '/'),
                None => last_index_of(v@, '/') == -1,
            },
    {
        let mut j = v.len();
        assert(v@.take(j as int) =~= v@);
        while j > 0
            invariant
                j <= v@.len(),
                last_index_of(v@, '/') == last_index_of(v@.take(j as int), '/'),
            decreases j,
        {
            if v[j - 1] == '/' {
                return Some(j - 1);
            }
            assert(v@.take(j as int).drop_last() =~= v@.take(j - 1));
            j = j - 1;
        }
        None
    }

    /// The last segment: `audio/effects/reverb` gives `reverb`.
    pub fn leaf(&self) -> (r: &str)
        ensures
            r@ == tag_leaf(self@),
    {
        let v = chars_of(self.0.as_str());
        let n = self.0.as_str().unicode_len();
        proof {
            lemma_last_index_of_bounds(self@, '/');
        }
        match Self::last_slash(&v) {
            Some(k) => self.0.as_str().substring_char(k + 1, n),
            None => self.0.as_str().substring_char(0, n),
        }
    }

    /// The parent tag: `audio/effects/reverb` gives `audio/effects`.
    pub fn parent(&self) -> (r: Option<Tag>)
        ensures
            match r {
                Some(t) => tag_parent(self@) == Some(t@),
                None => tag_parent(self@) is None,
            },
    {
        proof {
            use_type_invariant(self);
            lemma_last_index_of_bounds(self@, '/');
        }
        let v = chars_of(self.0.as_str());
        match Self::last_slash(&v) {
            Some(k) => {
                let p = subvec(&v, 0, k);
                assert(p@ =~= self@.take(k as int));
                proof {
                    if p@.len() > 0 {
                        assert(p@[0] == self@[0]);
                    }
                }
                Some(Tag(string_of(p.as_slice())))
            },
            None => None,
        }
    }

    /// All ancestors, from most specific to the root:
    /// `audio/effects/reverb` gives `[audio/effects, audio]`.
    pub fn ancestors(&self) -> (r: Vec<Tag>)
        ensures
            r@.map_values(|t: Tag| t@) == tag_ancestors(self@),
    {
        let mut result: Vec<Tag> = Vec::new();
        let mut current = self.clone();
        loop
            invariant
                result@.map_values(|t: Tag| t@) + tag_ancestors(current@) == tag_ancestors(
                    self@,
                ),
            decreases current@.len(),
        {
            match current.parent() {
                Some(p) => {
                    proof {
                        lemma_last_index_of_bounds(current@, '/');
                    }
                    let ghost old_result = result@;
                    result.push(p.clone());
                    assert(result@.map_values(|t: Tag| t@) =~= old_result.map_values(
                        |t: Tag| t@,
                    ).push(p@));
                    assert(tag_ancestors(current@) == seq![p@] + tag_ancestors(p@));
                    assert(result@.map_values(|t: Tag| t@) + tag_ancestors(p@) =~= old_result.map_values(
                        |t: Tag| t@,
                    ) + tag_ancestors(current@));
                    current = p;
                },
                None => {
                    assert(tag_ancestors(current@) == Seq::<Seq<char>>::empty());
                    assert(result@.map_values(|t: Tag| t@) =~= result@.map_values(|t: Tag| t@)
                        + tag_ancestors(current@));
                    return result;
                },
            }
        }
    }

    /// Whether this tag equals `other` or lies below it.
    pub fn is_under(&self, other: &Tag) -> (r: bool)
        ensures
            r == tag_is_under(self@, other@),
    {
        let a = chars_of(self.0.as_str());
        let b = chars_of(other.0.as_str());
        if chars_eq(a.as_slice(), b.as_slice()) {
            return true;
        }
        if b.len() < a.len() && starts_with(a.as_slice(), b.as_slice()) {
            return a[b.len()] == '/';
        }
        false
    }
}

// ── Registry ────────────────────────────────────────────────────

/// The content of a `TagInfo`, as character sequences.
pub struct TagInfoView {
    pub tag: Seq<char>,
    pub display_name: Seq<char>,
    pub description: Seq<char>,
    pub icon: Seq<char>,
    pub color: Seq<char>,
}

/// Metadata about a registered tag.
#[derive(Debug)]
pub struct TagInfo {
    /// The tag itself.
    pub tag: Tag,
    /// Human-readable display name.
    pub display_name: String,
    /// Description of what this tag category represents.
    pub description: String,
    /// Icon identifier for UI display.
    pub icon: String,
    /// CSS color string for UI display.
    pub color: String,
}

impl View for TagInfo {
    type V = TagInfoView;

    open spec fn view(&self) -> TagInfoView {
        TagInfoView {
            tag: self.tag@,
            display_name: self.display_name@,
            description: self.description@,
            icon: self.icon@,
            color: self.color@,
        }
    }
}

impl Clone for TagInfo {
    fn clone(&self) -> (r: Self)
        ensures
            r == *self,
    {
        TagInfo {
            tag: self.tag.clone(),
            display_name: self.display_name.clone(),
            description: self.description.clone(),
            icon: self.icon.clone(),
            color: self.color.clone(),
        }
    }
}

/// The part of a path after its last `/` (all of it if there is none).
pub fn path_leaf(s: &str) -> (r: &str)
    ensures
        r@ == tag_leaf(s@),
{
    let v = chars_of(s);
    let n = s.unicode_len();
    proof {
        lemma_last_index_of_bounds(s@, '/');
    }
    match Tag::last_slash(&v) {
        Some(k) => s.substring_char(k + 1, n),
        None => s.substring_char(0, n),
    }
}

/// The content of a registry: registered paths with their metadata, and
/// aliases from shorthand names to paths.
pub struct TagRegistryView {
    pub keys: Seq<Seq<char>>,
    pub infos: Seq<TagInfoView>,
    pub alias_keys: Seq<Seq<char>>,
    pub alias_vals: Seq<Seq<char>>,
}

/// Paths are registered once, aliases are defined once, and every key has its value.
pub open spec fn registry_wf(m: TagRegistryView) -> bool {
    &&& m.keys.len() == m.infos.len()
    &&& m.keys.no_duplicates()
    &&& m.alias_keys.len() == m.alias_vals.len()
    &&& m.alias_keys.no_duplicates()
}

/// Metadata registered for `k`.
pub open spec fn lookup_info(m: TagRegistryView, k: Seq<char>) -> Option<TagInfoView> {
    let i = index_of_str(m.keys, k);
    if i >= 0 {
        Some(m.infos[i])
    } else {
        None
    }
}

/// Path an alias stands for.
pub open spec fn lookup_alias(m: TagRegistryView, k: Seq<char>) -> Option<Seq<char>> {
    let i = index_of_str(m.alias_keys, k);
    if i >= 0 {
        Some(m.alias_vals[i])
    } else {
        None
    }
}

/// The registry with alias `k` standing for `v`, replacing an alias `k`.
pub open spec fn aliased(m: TagRegistryView, k: Seq<char>, v: Seq<char>) -> TagRegistryView {
    let i = index_of_str(m.alias_keys, k);
    if i >= 0 {
        TagRegistryView { alias_vals: m.alias_vals.update(i, v), ..m }
    } else {
        TagRegistryView { alias_keys: m.alias_keys.push(k), alias_vals: m.alias_vals.push(v), ..m }
    }
}

/// Sets the metadata of `k`, replacing it in place or appending it.
pub open spec fn put_info(m: TagRegistryView, k: Seq<char>, info: TagInfoView) -> TagRegistryView {
    let i = index_of_str(m.keys, k);
    if i >= 0 {
        TagRegistryView { infos: m.infos.update(i, info), ..m }
    } else {
        TagRegistryView { keys: m.keys.push(k), infos: m.infos.push(info), ..m }
    }
}

/// Adds metadata for `k` only if `k` is not registered.
pub open spec fn add_info_if_absent(
    m: TagRegistryView,
    k: Seq<char>,
    info: TagInfoView,
) -> TagRegistryView {
    if index_of_str(m.keys, k) >= 0 {
        m
    } else {
        TagRegistryView { keys: m.keys.push(k), infos: m.infos.push(info), ..m }
    }
}

/// Metadata given to an ancestor registered implicitly: its leaf as name.
pub open spec fn implicit_info(a: Seq<char>) -> TagInfoView {
    TagInfoView {
        tag: a,
        display_name: tag_leaf(a),
        description: Seq::empty(),
        icon: Seq::empty(),
        color: Seq::empty(),
    }
}

/// Registers each of `ancs`, in order, unless already registered.
pub open spec fn add_ancestors(m: TagRegistryView, ancs: Seq<Seq<char>>) -> TagRegistryView
    decreases ancs.len(),
{
    if ancs.len() == 0 {
        m
    } else {
        add_ancestors(add_info_if_absent(m, ancs[0], implicit_info(ancs[0])), ancs.drop_first())
    }
}

/// Effect of `register` on the registry, for an already normalized path `t`.
pub open spec fn register_spec(
    m: TagRegistryView,
    t: Seq<char>,
    name: Seq<char>,
    desc: Seq<char>,
) -> TagRegistryView {
    add_ancestors(
        put_info(
            m,
            t,
            TagInfoView {
                tag: t,
                display_name: name,
                description: desc,
                icon: Seq::empty(),
                color: Seq::empty(),
            },
        ),
        tag_ancestors(t),
    )
}

/// Changes the metadata stored under `k`, if `k` is registered.
pub open spec fn update_info(
    m: TagRegistryView,
    k: Seq<char>,
    f: spec_fn(TagInfoView) -> TagInfoView,
) -> TagRegistryView {
    let i = index_of_str(m.keys, k);
    if i >= 0 {
        TagRegistryView { infos: m.infos.update(i, f(m.infos[i])), ..m }
    } else {
        m
    }
}

/// The metadata satisfying `p`, in storage order.
pub open spec fn infos_where(
    infos: Seq<TagInfoView>,
    p: spec_fn(TagInfoView) -> bool,
) -> Seq<TagInfoView>
    decreases infos.len(),
{
    if infos.len() == 0 {
        Seq::empty()
    } else if p(infos.last()) {
        infos_where(infos.drop_last(), p).push(infos.last())
    } else {
        infos_where(infos.drop_last(), p)
    }
}

/// Keeps the pairs `(ks[i], vs[i])` that satisfy `p`.
pub open spec fn filter_pairs<V>(
    ks: Seq<Seq<char>>,
    vs: Seq<V>,
    p: spec_fn(Seq<char>, V) -> bool,
) -> (Seq<Seq<char>>, Seq<V>)
    decreases ks.len(),
{
    if ks.len() == 0 || vs.len() == 0 {
        (Seq::empty(), Seq::empty())
    } else {
        let r = filter_pairs(ks.drop_last(), vs.drop_last(), p);
        if p(ks.last(), vs.last()) {
            (r.0.push(ks.last()), r.1.push(vs.last()))
        } else {
            r
        }
    }
}

/// `a` is `t` itself or below it.
pub open spec fn in_subtree(a: Seq<char>, t: Seq<char>) -> bool {
    a == t || has_prefix(a, t.push('/'))
}

/// First non-empty color among the registered `cands`, or the empty string.
pub open spec fn first_color(m: TagRegistryView, cands: Seq<Seq<char>>) -> Seq<char>
    decreases cands.len(),
{
    if cands.len() == 0 {
        Seq::empty()
    } else {
        match lookup_info(m, cands[0]) {
            Some(i) => if i.color.len() > 0 {
                i.color
            } else {
                first_color(m, cands.drop_first())
            },
            None => first_color(m, cands.drop_first()),
        }
    }
}

pub proof fn lemma_push_no_duplicates(s: Seq<Seq<char>>, k: Seq<char>)
    requires
        s.no_duplicates(),
        !s.contains(k),
    ensures
        s.push(k).no_duplicates(),
{
    assert forall|i: int, j: int| 0 <= i < s.len() + 1 && 0 <= j < s.len() + 1 && i != j implies s.push(
        k,
    )[i] != s.push(k)[j] by {
        if i < s.len() && j < s.len() {
        } else if i == s.len() {
            assert(s[j] == s.push(k)[j]);
        } else {
            assert(s[i] == s.push(k)[i]);
        }
    }
}

pub proof fn lemma_filter_pairs<V>(ks: Seq<Seq<char>>, vs: Seq<V>, p: spec_fn(Seq<char>, V) -> bool)
    requires
        ks.len() == vs.len(),
    ensures
        filter_pairs(ks, vs, p).0.len() == filter_pairs(ks, vs, p).1.len(),
        forall|x: Seq<char>| #[trigger] filter_pairs(ks, vs, p).0.contains(x) ==> ks.contains(x),
        ks.no_duplicates() ==> filter_pairs(ks, vs, p).0.no_duplicates(),
    decreases ks.len(),
{
    if ks.len() > 0 {
        lemma_filter_pairs(ks.drop_last(), vs.drop_last(), p);
        let r = filter_pairs(ks.drop_last(), vs.drop_last(), p);
        assert forall|x: Seq<char>| #[trigger] filter_pairs(ks, vs, p).0.contains(x) implies ks.contains(
            x,
        ) by {
            if r.0.contains(x) {
                let j = choose|j: int| 0 <= j < ks.drop_last().len() && ks.drop_last()[j] == x;
                assert(ks[j] == x);
            } else {
                assert(x == ks.last());
                assert(ks[ks.len() - 1] == x);
            }
        }
        if ks.no_duplicates() && p(ks.last(), vs.last()) {
            assert(ks.drop_last().no_duplicates()) by {
                assert forall|i: int, j: int|
                    0 <= i < ks.drop_last().len() && 0 <= j < ks.drop_last().len() && i
                        != j implies ks.drop_last()[i] != ks.drop_last()[j] by {
                    assert(ks.drop_last()[i] == ks[i]);
                    assert(ks.drop_last()[j] == ks[j]);
                }
            }
            if r.0.contains(ks.last()) {
                let j = choose|j: int| 0 <= j < ks.drop_last().len() && ks.drop_last()[j] == ks.last();
                assert(ks[j] == ks[ks.len() - 1]);
            }
            lemma_push_no_duplicates(r.0, ks.last());
        } else if ks.no_duplicates() {
            assert(ks.drop_last().no_duplicates()) by {
                assert forall|i: int, j: int|
                    0 <= i < ks.drop_last().len() && 0 <= j < ks.drop_last().len() && i
                        != j implies ks.drop_last()[i] != ks.drop_last()[j] by {
                    assert(ks.drop_last()[i] == ks[i]);
                    assert(ks.drop_last()[j] == ks[j]);
                }
            }
        }
    }
}

/// Selects top-level tags.
pub open spec fn root_pred() -> spec_fn(TagInfoView) -> bool {
    |i: TagInfoView| tag_depth(i.tag) == 1
}

/// Selects direct children of `parent`.
pub open spec fn child_pred(parent: Seq<char>) -> spec_fn(TagInfoView) -> bool {
    |i: TagInfoView| has_prefix(i.tag, parent.push('/')) && tag_depth(i.tag) == tag_depth(parent) + 1
}

/// Selects all descendants of `parent`.
pub open spec fn descendant_pred(parent: Seq<char>) -> spec_fn(TagInfoView) -> bool {
    |i: TagInfoView| has_prefix(i.tag, parent.push('/'))
}

/// Selects everything.
pub open spec fn any_pred() -> spec_fn(TagInfoView) -> bool {
    |i: TagInfoView| true
}

/// Keeps the aliases whose target is not `t` (or, with `subtree`, not in the subtree of `t`).
pub open spec fn alias_keep(t: Seq<char>, subtree: bool) -> spec_fn(Seq<char>, Seq<char>) -> bool {
    |k: Seq<char>, v: Seq<char>| if subtree { !in_subtree(v, t) } else { v != t }
}

/// Keeps the registered tags outside the subtree of `t`.
pub open spec fn key_keep(t: Seq<char>) -> spec_fn(Seq<char>, TagInfoView) -> bool {
    |k: Seq<char>, i: TagInfoView| !in_subtree(k, t)
}

/// Effect of `merge_tag` when both tags are registered.
pub open spec fn merge_spec(m: TagRegistryView, s: Seq<char>) -> TagRegistryView {
    let i = index_of_str(m.keys, s);
    let f = filter_pairs(m.alias_keys, m.alias_vals, alias_keep(s, false));
    TagRegistryView {
        keys: m.keys.remove(i),
        infos: m.infos.remove(i),
        alias_keys: f.0,
        alias_vals: f.1,
    }
}

/// Effect of `rename_tag` when `o` is registered.
pub open spec fn rename_spec(m: TagRegistryView, o: Seq<char>, n: Seq<char>) -> TagRegistryView {
    let i = index_of_str(m.keys, o);
    let info = TagInfoView { tag: n, ..m.infos[i] };
    let m1 = TagRegistryView { keys: m.keys.remove(i), infos: m.infos.remove(i), ..m };
    let m2 = put_info(m1, n, info);
    TagRegistryView {
        alias_vals: m.alias_vals.map_values(|v: Seq<char>| if v == o { n } else { v }),
        ..m2
    }
}

/// Effect of `remove_tag` for the normalized path `t`.
pub open spec fn remove_spec(m: TagRegistryView, t: Seq<char>) -> TagRegistryView {
    let f = filter_pairs(m.keys, m.infos, key_keep(t));
    let g = filter_pairs(m.alias_keys, m.alias_vals, alias_keep(t, true));
    TagRegistryView { keys: f.0, infos: f.1, alias_keys: g.0, alias_vals: g.1 }
}

pub proof fn lemma_remove_no_duplicates(s: Seq<Seq<char>>, i: int)
    requires
        s.no_duplicates(),
        0 <= i < s.len(),
    ensures
        s.remove(i).no_duplicates(),
        !s.remove(i).contains(s[i]),
        forall|x: Seq<char>| x != s[i] && s.contains(x) ==> s.remove(i).contains(x),
{
    let r = s.remove(i);
    assert forall|a: int, b: int| 0 <= a < r.len() && 0 <= b < r.len() && a != b implies r[a]
        != r[b] by {
        let a2 = if a < i { a } else { a + 1 };
        let b2 = if b < i { b } else { b + 1 };
        assert(r[a] == s[a2]);
        assert(r[b] == s[b2]);
    }
    if r.contains(s[i]) {
        let a = choose|a: int| 0 <= a < r.len() && r[a] == s[i];
        let a2 = if a < i { a } else { a + 1 };
        assert(r[a] == s[a2]);
    }
    assert forall|x: Seq<char>| x != s[i] && s.contains(x) implies r.contains(x) by {
        let j = choose|j: int| 0 <= j < s.len() && s[j] == x;
        if j < i {
            assert(r[j] == x);
        } else {
            assert(r[j - 1] == x);
        }
    }
}

/// Central tag registry: registered tags with their metadata, and aliases.
#[derive(Debug)]
pub struct TagRegistry {
    keys: Vec<String>,
    infos: Vec<TagInfo>,
    alias_keys: Vec<String>,
    alias_vals: Vec<String>,
}

impl View for TagRegistry {
    type V = TagRegistryView;

    closed spec fn view(&self) -> TagRegistryView {
        TagRegistryView {
            keys: str_views(self.keys@),
            infos: self.infos@.map_values(|i: TagInfo| i@),
            alias_keys: str_views(self.alias_keys@),
            alias_vals: str_views(self.alias_vals@),
        }
    }
}

impl TagRegistry {
    /// The registry's invariant, over its content.
    pub open spec fn wf(&self) -> bool {
        registry_wf(self@)
    }

    /// An empty registry.
    pub fn new() -> (r: Self)
        ensures
            r.wf(),
            tags_are_keys(r@),
            r@.keys.len() == 0,
            r@.alias_keys.len() == 0,
    {
        let r = TagRegistry {
            keys: Vec::new(),
            infos: Vec::new(),
            alias_keys: Vec::new(),
            alias_vals: Vec::new(),
        };
        assert(r@.keys =~= Seq::<Seq<char>>::empty());
        assert(r@.alias_keys =~= Seq::<Seq<char>>::empty());
        r
    }

    /// Sets the metadata stored under `key`.
    fn put(&mut self, key: String, info: TagInfo)
        requires
            old(self).wf(),
        ensures
            final(self).wf(),
            final(self)@ == put_info(old(self)@, key@, info@),
    {
        let ghost m = self@;
        proof {
            lemma_index_of_str(m.keys, key@);
        }
        match find_str(&self.keys, key.as_str()) {
            Some(i) => {
                self.infos.set(i, info);
                assert(self@.infos =~= m.infos.update(i as int, info@));
                assert(self@ == put_info(m, key@, info@));
            },
            None => {
                proof {
                    lemma_push_no_duplicates(m.keys, key@);
                }
                self.keys.push(key);
                self.infos.push(info);
                assert(self@.keys =~= m.keys.push(key@));
                assert(self@.infos =~= m.infos.push(info@));
            },
        }
    }

    /// Adds metadata for `key` unless it is registered.
    fn add_if_absent(&mut self, key: String, info: TagInfo)
        requires
            old(self).wf(),
        ensures
            final(self).wf(),
            final(self)@ == add_info_if_absent(old(self)@, key@, info@),
    {
        let ghost m = self@;
        proof {
            lemma_index_of_str(m.keys, key@);
        }
        match find_str(&self.keys, key.as_str()) {
            Some(i) => {},
            None => {
                proof {
                    lemma_push_no_duplicates(m.keys, key@);
                }
                self.keys.push(key);
                self.infos.push(info);
                assert(self@.keys =~= m.keys.push(key@));
                assert(self@.infos =~= m.infos.push(info@));
            },
        }
    }

    /// Registers a tag with metadata. Its ancestors that are not registered
    /// are registered too, each named by its leaf.
    pub fn register(&mut self, path: &str, display_name: &str, description: &str) -> (r: &mut Self)
        requires
            old(self).wf(),
        ensures
            (*r).wf(),
            tags_are_keys(old(self)@) ==> tags_are_keys((*r)@),
            (*r)@ == register_spec(
                old(self)@,
                normalize_tag_path(path@),
                display_name@,
                description@,
            ),
            *final(self) == *final(r),
    {
        let ghost m0 = self@;
        let tag = Tag::new(path);
        let info = TagInfo {
            tag: tag.clone(),
            display_name: display_name.to_owned(),
            description: description.to_owned(),
            icon: String::new(),
            color: String::new(),
        };
        assert(info@.icon =~= Seq::<char>::empty());
        self.put(tag.to_string(), info);
        let ghost m1 = self@;
        let ancestors = tag.ancestors();
        let ghost ancs = ancestors@.map_values(|t: Tag| t@);
        let mut i: usize = 0;
        assert(ancs.skip(0) =~= ancs);
        while i < ancestors.len()
            invariant
                self.wf(),
                i <= ancestors@.len(),
                ancs == ancestors@.map_values(|t: Tag| t@),
                add_ancestors(m1, ancs) == add_ancestors(self@, ancs.skip(i as int)),
            decreases ancestors@.len() - i,
        {
            let a = &ancestors[i];
            let leaf = a.leaf();
            let info = TagInfo {
                tag: a.clone(),
                display_name: leaf.to_owned(),
                description: String::new(),
                icon: String::new(),
                color: String::new(),
            };
            assert(info@ =~= implicit_info(ancs[i as int]));
            assert(ancs.skip(i as int).drop_first() =~= ancs.skip(i + 1));
            self.add_if_absent(a.to_string(), info);
            i = i + 1;
        }
        assert(ancs.skip(ancestors@.len() as int) =~= Seq::<Seq<char>>::empty());
        proof {
            if tags_are_keys(m0) {
                lemma_register_tags(m0, tag@, display_name@, description@);
            }
        }
        self
    }

    /// Registers a tag with all metadata, icon and color included.
    pub fn register_full(
        &mut self,
        path: &str,
        display_name: &str,
        description: &str,
        icon: &str,
        color: &str,
    ) -> (r: &mut Self)
        requires
            old(self).wf(),
        ensures
            (*r).wf(),
            tags_are_keys(old(self)@) ==> tags_are_keys((*r)@),
            (*r)@ == update_info(
                register_spec(
                    old(self)@,
                    normalize_tag_path(normalize_tag_path(path@)),
                    display_name@,
                    description@,
                ),
                normalize_tag_path(path@),
                |i: TagInfoView| TagInfoView { icon: icon@, color: color@, ..i },
            ),
            *final(self) == *final(r),
    {
        let tag = Tag::new(path);
        let tag_path = tag.to_string();
        self.register(tag_path.as_str(), display_name, description);
        self.update_fields(tag_path.as_str(), Some(icon), Some(color));
        self
    }

    /// Sets icon and/or color of the tag stored under `key`, if registered.
    fn update_fields(&mut self, key: &str, icon: Option<&str>, color: Option<&str>)
        requires
            old(self).wf(),
        ensures
            final(self).wf(),
            tags_are_keys(old(self)@) ==> tags_are_keys(final(self)@),
            final(self)@ == update_info(
                old(self)@,
                key@,
                |i: TagInfoView|
                    TagInfoView {
                        icon: match icon {
                            Some(x) => x@,
                            None => i.icon,
                        },
                        color: match color {
                            Some(x) => x@,
                            None => i.color,
                        },
                        ..i
                    },
            ),
    {
        let ghost m = self@;
        proof {
            lemma_index_of_str(m.keys, key@);
        }
        match find_str(&self.keys, key) {
            Some(i) => {
                let mut info = self.infos[i].clone();
                match icon {
                    Some(x) => {
                        info.icon = x.to_owned();
                    },
                    None => {},
                }
                match color {
                    Some(x) => {
                        info.color = x.to_owned();
                    },
                    None => {},
                }
                self.infos.set(i, info);
                assert(self@.infos =~= m.infos.update(i as int, info@));
                assert(info@.tag == m.infos[i as int].tag);
            },
            None => {},
        }
    }

    /// Sets the color of an already registered tag.
    pub fn set_color(&mut self, path: &str, color: &str) -> (r: &mut Self)
        requires
            old(self).wf(),
        ensures
            (*r).wf(),
            tags_are_keys(old(self)@) ==> tags_are_keys((*r)@),
            (*r)@ == update_info(
                old(self)@,
                normalize_tag_path(path@),
                |i: TagInfoView| TagInfoView { color: color@, ..i },
            ),
            *final(self) == *final(r),
    {
        let tag = Tag::new(path);
        self.update_fields(tag.path(), None, Some(color));
        self
    }

    /// Sets the icon of an already registered tag.
    pub fn set_icon(&mut self, path: &str, icon: &str)
        requires
            old(self).wf(),
        ensures
            final(self).wf(),
            tags_are_keys(old(self)@) ==> tags_are_keys(final(self)@),
            final(self)@ == update_info(
                old(self)@,
                normalize_tag_path(path@),
                |i: TagInfoView| TagInfoView { icon: icon@, ..i },
            ),
    {
        let tag = Tag::new(path);
        self.update_fields(tag.path(), Some(icon), None);
    }

    /// Registers a tag with metadata and icon.
    pub fn register_with_icon(
        &mut self,
        path: &str,
        display_name: &str,
        description: &str,
        icon: &str,
    ) -> (r: &mut Self)
        requires
            old(self).wf(),
        ensures
            (*r).wf(),
            tags_are_keys(old(self)@) ==> tags_are_keys((*r)@),
            (*r)@ == update_info(
                register_spec(
                    old(self)@,
                    normalize_tag_path(normalize_tag_path(path@)),
                    display_name@,
                    description@,
                ),
                normalize_tag_path(path@),
                |i: TagInfoView| TagInfoView { icon: icon@, ..i },
            ),
            *final(self) == *final(r),
    {
        let tag = Tag::new(path);
        let tag_path = tag.to_string();
        self.register(tag_path.as_str(), display_name, description);
        self.update_fields(tag_path.as_str(), Some(icon), None);
        self
    }

    /// Adds an alias: a shorthand name, lower-cased, for a full tag path.
    pub fn alias(&mut self, shorthand: &str, full_path: &str) -> (r: &mut Self)
        requires
            old(self).wf(),
        ensures
            (*r).wf(),
            tags_are_keys(old(self)@) ==> tags_are_keys((*r)@),
            (*r)@ == aliased(old(self)@, lowercase(shorthand@), normalize_tag_path(full_path@)),
            *final(self) == *final(r),
    {
        let key = to_lowercase(shorthand);
        let tag = Tag::new(full_path);
        let ghost m = self@;
        proof {
            lemma_index_of_str(m.alias_keys, key@);
        }
        match find_str(&self.alias_keys, key.as_str()) {
            Some(i) => {
                self.alias_vals.set(i, tag.to_string());
                assert(self@.alias_vals =~= m.alias_vals.update(i as int, tag@));
            },
            None => {
                proof {
                    lemma_push_no_duplicates(m.alias_keys, key@);
                }
                self.alias_keys.push(key);
                self.alias_vals.push(tag.to_string());
                assert(self@.alias_keys =~= m.alias_keys.push(lowercase(shorthand@)));
                assert(self@.alias_vals =~= m.alias_vals.push(tag@));
            },
        }
        self
    }

    /// Resolves a tag string, checking aliases (by lower-cased name) first.
    pub fn resolve(&self, input: &str) -> (r: Tag)
        requires
            self.wf(),
        ensures
            r@ == match lookup_alias(self@, lowercase(input@)) {
                Some(v) => normalize_tag_path(v),
                None => normalize_tag_path(input@),
            },
    {
        let lower = to_lowercase(input);
        proof {
            lemma_index_of_str(self@.alias_keys, lower@);
        }
        match find_str(&self.alias_keys, lower.as_str()) {
            Some(i) => Tag::new(self.alias_vals[i].as_str()),
            None => Tag::new(input),
        }
    }

    /// Metadata of a tag, if registered.
    pub fn info(&self, tag: &Tag) -> (r: Option<&TagInfo>)
        requires
            self.wf(),
        ensures
            match r {
                Some(x) => lookup_info(self@, tag@) == Some(x@),
                None => lookup_info(self@, tag@) is None,
            },
    {
        proof {
            lemma_index_of_str(self@.keys, tag@);
        }
        match find_str(&self.keys, tag.path()) {
            Some(i) => Some(&self.infos[i]),
            None => None,
        }
    }

    /// Mutable metadata of a tag, if registered.
    pub fn info_mut(&mut self, tag: &Tag) -> (r: Option<&mut TagInfo>)
        requires
            old(self).wf(),
        ensures
            match r {
                Some(x) => {
                    let i = index_of_str(old(self)@.keys, tag@);
                    &&& i >= 0
                    &&& x@ == old(self)@.infos[i]
                    &&& final(self)@ == TagRegistryView {
                        infos: old(self)@.infos.update(i, final(x)@),
                        ..old(self)@
                    }
                },
                None => {
                    &&& lookup_info(old(self)@, tag@) is None
                    &&& final(self)@ == old(self)@
                },
            },
    {
        proof {
            lemma_index_of_str(self@.keys, tag@);
        }
        match find_str(&self.keys, tag.path()) {
            Some(i) => {
                assert forall|v: TagInfo|
                    (#[trigger] self.infos@.update(i as int, v)).map_values(|t: TagInfo| t@)
                        == self@.infos.update(i as int, v@) by {
                    assert(self.infos@.update(i as int, v).map_values(|t: TagInfo| t@)
                        =~= self@.infos.update(i as int, v@));
                }
                Some(&mut self.infos[i])
            },
            None => None,
        }
    }

    /// All registered top-level tags (depth 1).
    pub fn root_tags(&self) -> (r: Vec<&TagInfo>)
        requires
            self.wf(),
        ensures
            r@.map_values(|x: &TagInfo| x@) == infos_where(self@.infos, root_pred()),
            tags_are_keys(self@) ==> crate::laws::info_tags(r@.map_values(|x: &TagInfo| x@)).no_duplicates(),
    {
        let mut r: Vec<&TagInfo> = Vec::new();
        let mut k: usize = 0;
        while k < self.infos.len()
            invariant
                k <= self.infos@.len(),
                r@.map_values(|x: &TagInfo| x@) == infos_where(
                    self@.infos.take(k as int),
                    root_pred(),
                ),
            decreases self.infos@.len() - k,
        {
            let info = &self.infos[k];
            let ghost old_r = r@;
            assert(self@.infos.take(k + 1).drop_last() =~= self@.infos.take(k as int));
            assert(self@.infos.take(k + 1).last() == info@);
            if info.tag.depth() == 1 {
                r.push(info);
                assert(r@.map_values(|x: &TagInfo| x@) =~= old_r.map_values(|x: &TagInfo| x@).push(
                    info@,
                ));
            }
            k = k + 1;
        }
        assert(self@.infos.take(k as int) =~= self@.infos);
        proof {
            if tags_are_keys(self@) {
                crate::laws::law_queries_list_tags_once(self@, root_pred());
            }
        }
        r
    }

    /// The registered direct children of a tag.
    pub fn children_of(&self, parent: &Tag) -> (r: Vec<&TagInfo>)
        requires
            self.wf(),
        ensures
            r@.map_values(|x: &TagInfo| x@) == infos_where(self@.infos, child_pred(parent@)),
            tags_are_keys(self@) ==> crate::laws::info_tags(r@.map_values(|x: &TagInfo| x@)).no_duplicates(),
    {
        let mut prefix = chars_of(parent.path());
        prefix.push('/');
        let pdepth = parent.depth();
        let mut r: Vec<&TagInfo> = Vec::new();
        let mut k: usize = 0;
        while k < self.infos.len()
            invariant
                k <= self.infos@.len(),
                prefix@ == parent@.push('/'),
                pdepth == tag_depth(parent@),
                r@.map_values(|x: &TagInfo| x@) == infos_where(
                    self@.infos.take(k as int),
                    child_pred(parent@),
                ),
            decreases self.infos@.len() - k,
        {
            let info = &self.infos[k];
            let ghost old_r = r@;
            assert(self@.infos.take(k + 1).drop_last() =~= self@.infos.take(k as int));
            assert(self@.infos.take(k + 1).last() == info@);
            let path = chars_of(info.tag.path());
            let d = info.tag.depth();
            if starts_with(path.as_slice(), prefix.as_slice()) && d > 0 && d - 1 == pdepth {
                r.push(info);
                assert(r@.map_values(|x: &TagInfo| x@) =~= old_r.map_values(|x: &TagInfo| x@).push(
                    info@,
                ));
            }
            k = k + 1;
        }
        assert(self@.infos.take(k as int) =~= self@.infos);
        proof {
            if tags_are_keys(self@) {
                crate::laws::law_queries_list_tags_once(self@, child_pred(parent@));
            }
        }
        r
    }

    /// All registered tags below a tag (recursively).
    pub fn descendants_of(&self, parent: &Tag) -> (r: Vec<&TagInfo>)
        requires
            self.wf(),
        ensures
            r@.map_values(|x: &TagInfo| x@) == infos_where(self@.infos, descendant_pred(parent@)),
            tags_are_keys(self@) ==> crate::laws::info_tags(r@.map_values(|x: &TagInfo| x@)).no_duplicates(),
    {
        let mut prefix = chars_of(parent.path());
        prefix.push('/');
        let mut r: Vec<&TagInfo> = Vec::new();
        let mut k: usize = 0;
        while k < self.infos.len()
            invariant
                k <= self.infos@.len(),
                prefix@ == parent@.push('/'),
                r@.map_values(|x: &TagInfo| x@) == infos_where(
                    self@.infos.take(k as int),
                    descendant_pred(parent@),
                ),
            decreases self.infos@.len() - k,
        {
            let info = &self.infos[k];
            let ghost old_r = r@;
            assert(self@.infos.take(k + 1).drop_last() =~= self@.infos.take(k as int));
            assert(self@.infos.take(k + 1).last() == info@);
            let path = chars_of(info.tag.path());
            if starts_with(path.as_slice(), prefix.as_slice()) {
                r.push(info);
                assert(r@.map_values(|x: &TagInfo| x@) =~= old_r.map_values(|x: &TagInfo| x@).push(
                    info@,
                ));
            }
            k = k + 1;
        }
        assert(self@.infos.take(k as int) =~= self@.infos);
        proof {
            if tags_are_keys(self@) {
                crate::laws::law_queries_list_tags_once(self@, descendant_pred(parent@));
            }
        }
        r
    }

    /// All registered tags.
    pub fn all_tags(&self) -> (r: Vec<&TagInfo>)
        requires
            self.wf(),
        ensures
            r@.map_values(|x: &TagInfo| x@) == self@.infos,
    {
        let mut r: Vec<&TagInfo> = Vec::new();
        let mut k: usize = 0;
        while k < self.infos.len()
            invariant
                k <= self.infos@.len(),
                r@.map_values(|x: &TagInfo| x@) == self@.infos.take(k as int),
            decreases self.infos@.len() - k,
        {
            let ghost old_r = r@;
            r.push(&self.infos[k]);
            assert(r@.map_values(|x: &TagInfo| x@) =~= old_r.map_values(|x: &TagInfo| x@).push(
                self.infos@[k as int]@,
            ));
            assert(self@.infos.take(k + 1) =~= self@.infos.take(k as int).push(self.infos@[k as int]@));
            k = k + 1;
        }
        assert(self@.infos.take(k as int) =~= self@.infos);
        r
    }

    /// Whether any of the given tags lies at or below `filter`.
    pub fn matches_filter(item_tags: &[Tag], filter: &Tag) -> (r: bool)
        ensures
            r == exists|i: int| 0 <= i < item_tags@.len() && tag_is_under(item_tags@[i]@, filter@),
    {
        let mut k: usize = 0;
        while k < item_tags.len()
            invariant
                k <= item_tags@.len(),
                forall|i: int| 0 <= i < k ==> !tag_is_under(item_tags@[i]@, filter@),
            decreases item_tags@.len() - k,
        {
            if item_tags[k].is_under(filter) {
                return true;
            }
            k = k + 1;
        }
        false
    }

    /// Keeps the aliases whose target stays (see `alias_keep`).
    fn retain_aliases(&mut self, t: &String, subtree: bool)
        requires
            old(self).wf(),
        ensures
            final(self).wf(),
            final(self)@ == ({
                let f = filter_pairs(
                    old(self)@.alias_keys,
                    old(self)@.alias_vals,
                    alias_keep(t@, subtree),
                );
                TagRegistryView { alias_keys: f.0, alias_vals: f.1, ..old(self)@ }
            }),
    {
        let ghost m = self@;
        let ghost p = alias_keep(t@, subtree);
        let tv = chars_of(t.as_str());
        let mut prefix = chars_of(t.as_str());
        prefix.push('/');
        let mut nk: Vec<String> = Vec::new();
        let mut nv: Vec<String> = Vec::new();
        let mut k: usize = 0;
        while k < self.alias_keys.len()
            invariant
                self@ == m,
                registry_wf(m),
                p == alias_keep(t@, subtree),
                k <= m.alias_keys.len(),
                tv@ == t@,
                prefix@ == t@.push('/'),
                (str_views(nk@), str_views(nv@)) == filter_pairs(
                    m.alias_keys.take(k as int),
                    m.alias_vals.take(k as int),
                    p,
                ),
            decreases m.alias_keys.len() - k,
        {
            let v = chars_of(self.alias_vals[k].as_str());
            let keep = if subtree {
                !(chars_eq(v.as_slice(), tv.as_slice()) || starts_with(
                    v.as_slice(),
                    prefix.as_slice(),
                ))
            } else {
                !chars_eq(v.as_slice(), tv.as_slice())
            };
            let ghost ok = str_views(nk@);
            let ghost ov = str_views(nv@);
            assert(m.alias_keys.take(k + 1).drop_last() =~= m.alias_keys.take(k as int));
            assert(m.alias_vals.take(k + 1).drop_last() =~= m.alias_vals.take(k as int));
            assert(m.alias_keys.take(k + 1).last() == self.alias_keys@[k as int]@);
            assert(m.alias_vals.take(k + 1).last() == self.alias_vals@[k as int]@);
            assert(keep == p(m.alias_keys[k as int], m.alias_vals[k as int]));
            assert(filter_pairs(m.alias_keys.take(k + 1), m.alias_vals.take(k + 1), p) == (if p(
                m.alias_keys[k as int],
                m.alias_vals[k as int],
            ) {
                (ok.push(m.alias_keys[k as int]), ov.push(m.alias_vals[k as int]))
            } else {
                (ok, ov)
            }));
            if keep {
                nk.push(self.alias_keys[k].clone());
                nv.push(self.alias_vals[k].clone());
                assert(str_views(nk@) =~= ok.push(m.alias_keys[k as int]));
                assert(str_views(nv@) =~= ov.push(m.alias_vals[k as int]));
            }
            k = k + 1;
        }
        assert(m.alias_keys.take(k as int) =~= m.alias_keys);
        assert(m.alias_vals.take(k as int) =~= m.alias_vals);
        proof {
            lemma_filter_pairs(m.alias_keys, m.alias_vals, p);
        }
        self.alias_keys = nk;
        self.alias_vals = nv;
    }

    /// Merges `source` into `dest`: when both are registered, removes
    /// `source` and the aliases pointing to it, and returns both tags so the
    /// caller can retag its items.
    pub fn merge_tag(&mut self, source: &str, dest: &str) -> (r: Option<(Tag, Tag)>)
        requires
            old(self).wf(),
        ensures
            final(self).wf(),
            tags_are_keys(old(self)@) ==> tags_are_keys(final(self)@),
            ({
                let s = normalize_tag_path(source@);
                let d = normalize_tag_path(dest@);
                if lookup_info(old(self)@, s) is Some && lookup_info(old(self)@, d) is Some {
                    &&& r matches Some((a, b)) && a@ == s && b@ == d
                    &&& final(self)@ == merge_spec(old(self)@, s)
                } else {
                    &&& r is None
                    &&& final(self)@ == old(self)@
                }
            }),
    {
        let src = Tag::new(source);
        let dst = Tag::new(dest);
        let ghost m = self@;
        proof {
            lemma_index_of_str(m.keys, src@);
            lemma_index_of_str(m.keys, dst@);
        }
        let si = find_str(&self.keys, src.path());
        let di = find_str(&self.keys, dst.path());
        match (si, di) {
            (Some(i), Some(_)) => {
                proof {
                    lemma_remove_no_duplicates(m.keys, i as int);
                }
                self.keys.remove(i);
                self.infos.remove(i);
                assert(self@.keys =~= m.keys.remove(i as int));
                assert(self@.infos =~= m.infos.remove(i as int));
                let t = src.to_string();
                self.retain_aliases(&t, false);
                proof {
                    if tags_are_keys(m) {
                        lemma_merge_tags(m, src@);
                    }
                }
                Some((src, dst))
            },
            _ => None,
        }
    }

    /// Renames a tag: its metadata moves to the new path, and aliases that
    /// pointed to the old path point to the new one. False if the old path
    /// is not registered.
    pub fn rename_tag(&mut self, old_path: &str, new_path: &str) -> (r: bool)
        requires
            old(self).wf(),
        ensures
            final(self).wf(),
            tags_are_keys(old(self)@) ==> tags_are_keys(final(self)@),
            ({
                let o = normalize_tag_path(old_path@);
                let n = normalize_tag_path(new_path@);
                if lookup_info(old(self)@, o) is Some {
                    r && final(self)@ == rename_spec(old(self)@, o, n)
                } else {
                    !r && final(self)@ == old(self)@
                }
            }),
    {
        let old_tag = Tag::new(old_path);
        let new_tag = Tag::new(new_path);
        let ghost m = self@;
        proof {
            lemma_index_of_str(m.keys, old_tag@);
        }
        match find_str(&self.keys, old_tag.path()) {
            Some(i) => {
                proof {
                    lemma_remove_no_duplicates(m.keys, i as int);
                }
                self.keys.remove(i);
                let mut info = self.infos.remove(i);
                assert(self@.keys =~= m.keys.remove(i as int));
                assert(self@.infos =~= m.infos.remove(i as int));
                info.tag = new_tag.clone();
                self.put(new_tag.to_string(), info);
                let ghost m2 = self@;
                let ov = chars_of(old_tag.path());
                let mut k: usize = 0;
                while k < self.alias_vals.len()
                    invariant
                        registry_wf(self@),
                        self@.keys == m2.keys,
                        self@.infos == m2.infos,
                        self@.alias_keys == m2.alias_keys,
                        self@.alias_vals.len() == m2.alias_vals.len(),
                        m2.alias_vals == m.alias_vals,
                        ov@ == old_tag@,
                        k <= m2.alias_vals.len(),
                        forall|j: int|
                            0 <= j < k ==> self@.alias_vals[j] == (if m.alias_vals[j] == old_tag@ {
                                new_tag@
                            } else {
                                m.alias_vals[j]
                            }),
                        forall|j: int| k <= j < m2.alias_vals.len() ==> self@.alias_vals[j] == m.alias_vals[j],
                    decreases m2.alias_vals.len() - k,
                {
                    let v = chars_of(self.alias_vals[k].as_str());
                    if chars_eq(v.as_slice(), ov.as_slice()) {
                        self.alias_vals.set(k, new_tag.to_string());
                    }
                    k = k + 1;
                }
                assert(self@.alias_vals =~= m.alias_vals.map_values(
                    |v: Seq<char>| if v == old_tag@ { new_tag@ } else { v },
                ));
                proof {
                    if tags_are_keys(m) {
                        lemma_rename_tags(m, old_tag@, new_tag@);
                    }
                }
                true
            },
            None => false,
        }
    }

    /// Removes a tag and all its descendants, and the aliases pointing into
    /// that subtree.
    pub fn remove_tag(&mut self, path: &str)
        requires
            old(self).wf(),
        ensures
            final(self).wf(),
            tags_are_keys(old(self)@) ==> tags_are_keys(final(self)@),
            final(self)@ == remove_spec(old(self)@, normalize_tag_path(path@)),
    {
        let tag = Tag::new(path);
        let ghost m = self@;
        let ghost p = key_keep(tag@);
        let tv = chars_of(tag.path());
        let mut prefix = chars_of(tag.path());
        prefix.push('/');
        let mut nk: Vec<String> = Vec::new();
        let mut ni: Vec<TagInfo> = Vec::new();
        let mut k: usize = 0;
        while k < self.keys.len()
            invariant
                self@ == m,
                registry_wf(m),
                p == key_keep(tag@),
                k <= m.keys.len(),
                tv@ == tag@,
                prefix@ == tag@.push('/'),
                (str_views(nk@), ni@.map_values(|i: TagInfo| i@)) == filter_pairs(
                    m.keys.take(k as int),
                    m.infos.take(k as int),
                    p,
                ),
            decreases m.keys.len() - k,
        {
            let v = chars_of(self.keys[k].as_str());
            let keep = !(chars_eq(v.as_slice(), tv.as_slice()) || starts_with(
                v.as_slice(),
                prefix.as_slice(),
            ));
            let ghost ok = str_views(nk@);
            let ghost oi = ni@.map_values(|i: TagInfo| i@);
            assert(m.keys.take(k + 1).drop_last() =~= m.keys.take(k as int));
            assert(m.infos.take(k + 1).drop_last() =~= m.infos.take(k as int));
            assert(m.keys.take(k + 1).last() == self.keys@[k as int]@);
            assert(m.infos.take(k + 1).last() == self.infos@[k as int]@);
            assert(keep == p(m.keys[k as int], m.infos[k as int]));
            assert(filter_pairs(m.keys.take(k + 1), m.infos.take(k + 1), p) == (if p(
                m.keys[k as int],
                m.infos[k as int],
            ) {
                (ok.push(m.keys[k as int]), oi.push(m.infos[k as int]))
            } else {
                (ok, oi)
            }));
            if keep {
                nk.push(self.keys[k].clone());
                ni.push(self.infos[k].clone());
                assert(str_views(nk@) =~= ok.push(m.keys[k as int]));
                assert(ni@.map_values(|i: TagInfo| i@) =~= oi.push(m.infos[k as int]));
            }
            k = k + 1;
        }
        assert(m.keys.take(k as int) =~= m.keys);
        assert(m.infos.take(k as int) =~= m.infos);
        proof {
            lemma_filter_pairs(m.keys, m.infos, p);
        }
        self.keys = nk;
        self.infos = ni;
        let t = tag.to_string();
        self.retain_aliases(&t, true);
        proof {
            if tags_are_keys(m) {
                lemma_remove_spec_tags(m, tag@);
            }
        }
    }

    /// The color of a tag, inherited from the nearest registered ancestor
    /// with a color when the tag has none.
    pub fn effective_color(&self, tag: &Tag) -> (r: String)
        requires
            self.wf(),
        ensures
            r@ == first_color(self@, seq![tag@] + tag_ancestors(tag@)),
            ({
                let cands = seq![tag@] + tag_ancestors(tag@);
                &&& forall|i: int|
                    0 <= i < cands.len() && crate::laws::own_color(self@, cands[i]).len() > 0 && (forall|j: int|
                        0 <= j < i ==> (#[trigger] crate::laws::own_color(self@, cands[j])).len() == 0)
                        ==> r@ == #[trigger] crate::laws::own_color(self@, cands[i])
                &&& (forall|j: int| 0 <= j < cands.len() ==> (#[trigger] crate::laws::own_color(self@, cands[j])).len()
                    == 0) ==> r@.len() == 0
            }),
    {
        let r = self.first_color_of(tag);
        proof {
            let cands = seq![tag@] + tag_ancestors(tag@);
            assert forall|i: int|
                0 <= i < cands.len() && crate::laws::own_color(self@, cands[i]).len() > 0 && (forall|j: int|
                    0 <= j < i ==> (#[trigger] crate::laws::own_color(self@, cands[j])).len() == 0)
                    implies r@ == #[trigger] crate::laws::own_color(self@, cands[i]) by {
                crate::laws::law_first_color_is_nearest(self@, cands, i);
            }
            crate::laws::law_first_color_is_nearest(self@, cands, 0);
        }
        r
    }

    /// The first color along the tag and its ancestors.
    fn first_color_of(&self, tag: &Tag) -> (r: String)
        requires
            self.wf(),
        ensures
            r@ == first_color(self@, seq![tag@] + tag_ancestors(tag@)),
    {
        let ghost cands = seq![tag@] + tag_ancestors(tag@);
        assert(cands[0] == tag@);
        assert(cands.len() > 0);
        match self.info(tag) {
            Some(x) => {
                if !x.color.as_str().is_empty() {
                    assert(first_color(self@, cands) == x.color@);
                    return x.color.clone();
                }
            },
            None => {},
        }
        let ancestors = tag.ancestors();
        let ghost ancs = ancestors@.map_values(|t: Tag| t@);
        assert(cands.drop_first() =~= ancs);
        assert(ancs.skip(0) =~= ancs);
        let mut k: usize = 0;
        while k < ancestors.len()
            invariant
                self.wf(),
                k <= ancestors@.len(),
                ancs == ancestors@.map_values(|t: Tag| t@),
                cands == seq![tag@] + tag_ancestors(tag@),
                first_color(self@, cands) == first_color(self@, ancs.skip(k as int)),
            decreases ancestors@.len() - k,
        {
            assert(ancs.skip(k as int)[0] == ancestors@[k as int]@);
            assert(ancs.skip(k as int).drop_first() =~= ancs.skip(k + 1));
            match self.info(&ancestors[k]) {
                Some(x) => {
                    if !x.color.as_str().is_empty() {
                        assert(first_color(self@, ancs.skip(k as int)) == x.color@);
                        return x.color.clone();
                    }
                },
                None => {},
            }
            k = k + 1;
        }
        assert(ancs.skip(k as int) =~= Seq::<Seq<char>>::empty());
        String::new()
    }
}

// ── Metadata carried under their own paths ─────────────────────

/// Every stored metadata carries the path it is stored under as its tag.
/// Every operation of the registry keeps this, except that `info_mut` hands
/// out the metadata itself, whose `tag` a caller may change.
pub open spec fn tags_are_keys(m: TagRegistryView) -> bool {
    &&& m.keys.len() == m.infos.len()
    &&& forall|i: int| 0 <= i < m.infos.len() ==> (#[trigger] m.infos[i]).tag == m.keys[i]
}

pub proof fn lemma_put_tags(m: TagRegistryView, k: Seq<char>, info: TagInfoView)
    requires
        tags_are_keys(m),
        info.tag == k,
    ensures
        tags_are_keys(put_info(m, k, info)),
        tags_are_keys(add_info_if_absent(m, k, info)),
{
    lemma_index_of_str(m.keys, k);
    let i = index_of_str(m.keys, k);
    if i < 0 {
        let r = put_info(m, k, info);
        assert forall|j: int| 0 <= j < r.infos.len() implies (#[trigger] r.infos[j]).tag == r.keys[j] by {
            if j < m.infos.len() {
                assert(r.infos[j] == m.infos[j] && r.keys[j] == m.keys[j]);
            }
        }
    }
}

pub proof fn lemma_add_ancestors_tags(m: TagRegistryView, ancs: Seq<Seq<char>>)
    requires
        tags_are_keys(m),
    ensures
        tags_are_keys(add_ancestors(m, ancs)),
    decreases ancs.len(),
{
    if ancs.len() > 0 {
        lemma_put_tags(m, ancs[0], implicit_info(ancs[0]));
        lemma_add_ancestors_tags(add_info_if_absent(m, ancs[0], implicit_info(ancs[0])), ancs.drop_first());
    }
}

pub proof fn lemma_register_tags(m: TagRegistryView, t: Seq<char>, name: Seq<char>, desc: Seq<char>)
    requires
        tags_are_keys(m),
    ensures
        tags_are_keys(register_spec(m, t, name, desc)),
{
    let info = TagInfoView { tag: t, display_name: name, description: desc, icon: Seq::empty(), color: Seq::empty() };
    lemma_put_tags(m, t, info);
    lemma_add_ancestors_tags(put_info(m, t, info), tag_ancestors(t));
}

pub proof fn lemma_update_tags(m: TagRegistryView, k: Seq<char>, f: spec_fn(TagInfoView) -> TagInfoView)
    requires
        tags_are_keys(m),
        forall|x: TagInfoView| #[trigger] f(x).tag == x.tag,
    ensures
        tags_are_keys(update_info(m, k, f)),
{
    lemma_index_of_str(m.keys, k);
    let i = index_of_str(m.keys, k);
    if i >= 0 {
        assert(f(m.infos[i]).tag == m.infos[i].tag);
    }
}

pub proof fn lemma_remove_at_tags(m: TagRegistryView, i: int)
    requires
        tags_are_keys(m),
        0 <= i < m.keys.len(),
    ensures
        tags_are_keys(TagRegistryView { keys: m.keys.remove(i), infos: m.infos.remove(i), ..m }),
{
    let r = TagRegistryView { keys: m.keys.remove(i), infos: m.infos.remove(i), ..m };
    assert forall|j: int| 0 <= j < r.infos.len() implies (#[trigger] r.infos[j]).tag == r.keys[j] by {
        let j2 = if j < i { j } else { j + 1 };
        assert(r.infos[j] == m.infos[j2] && r.keys[j] == m.keys[j2]);
    }
}

pub proof fn lemma_merge_tags(m: TagRegistryView, s: Seq<char>)
    requires
        tags_are_keys(m),
        index_of_str(m.keys, s) >= 0,
    ensures
        tags_are_keys(merge_spec(m, s)),
{
    lemma_index_of_str(m.keys, s);
    lemma_remove_at_tags(m, index_of_str(m.keys, s));
}

pub proof fn lemma_rename_tags(m: TagRegistryView, o: Seq<char>, n: Seq<char>)
    requires
        tags_are_keys(m),
        index_of_str(m.keys, o) >= 0,
    ensures
        tags_are_keys(rename_spec(m, o, n)),
{
    lemma_index_of_str(m.keys, o);
    let i = index_of_str(m.keys, o);
    lemma_remove_at_tags(m, i);
    let m1 = TagRegistryView { keys: m.keys.remove(i), infos: m.infos.remove(i), ..m };
    lemma_put_tags(m1, n, TagInfoView { tag: n, ..m.infos[i] });
}

proof fn lemma_filter_pairs_tags(ks: Seq<Seq<char>>, vs: Seq<TagInfoView>, t: Seq<char>)
    requires
        ks.len() == vs.len(),
        forall|i: int| 0 <= i < vs.len() ==> (#[trigger] vs[i]).tag == ks[i],
    ensures
        ({
            let f = filter_pairs(ks, vs, key_keep(t));
            &&& f.0.len() == f.1.len()
            &&& forall|i: int| 0 <= i < f.1.len() ==> (#[trigger] f.1[i]).tag == f.0[i]
        }),
    decreases ks.len(),
{
    if ks.len() > 0 {
        assert forall|i: int| 0 <= i < vs.drop_last().len() implies (#[trigger] vs.drop_last()[i]).tag
            == ks.drop_last()[i] by {
            assert(vs.drop_last()[i] == vs[i]);
        }
        lemma_filter_pairs_tags(ks.drop_last(), vs.drop_last(), t);
        let r = filter_pairs(ks.drop_last(), vs.drop_last(), key_keep(t));
        let f = filter_pairs(ks, vs, key_keep(t));
        assert forall|i: int| 0 <= i < f.1.len() implies (#[trigger] f.1[i]).tag == f.0[i] by {
            if i < r.1.len() {
                assert(f.1[i] == r.1[i]);
                assert(f.0[i] == r.0[i]);
            } else {
                assert(vs[vs.len() - 1].tag == ks[ks.len() - 1]);
            }
        }
    }
}

pub proof fn lemma_remove_spec_tags(m: TagRegistryView, t: Seq<char>)
    requires
        tags_are_keys(m),
    ensures
        tags_are_keys(remove_spec(m, t)),
{
    lemma_filter_pairs_tags(m.keys, m.infos, t);
}

// ── Tag sets ────────────────────────────────────────────────────

/// Some tag of `s` lies at or below `f`.
pub open spec fn tags_match(s: Seq<Seq<char>>, f: Seq<char>) -> bool {
    exists|i: int| 0 <= i < s.len() && tag_is_under(s[i], f)
}

/// `s` without any occurrence of `x`.
pub open spec fn without(s: Seq<Seq<char>>, x: Seq<char>) -> Seq<Seq<char>>
    decreases s.len(),
{
    if s.len() == 0 {
        s
    } else if s.last() == x {
        without(s.drop_last(), x)
    } else {
        without(s.drop_last(), x).push(s.last())
    }
}

/// The tags on an item.
#[derive(Debug, PartialEq)]
pub struct TagSet {
    tags: Vec<Tag>,
}

impl View for TagSet {
    type V = Seq<Seq<char>>;

    closed spec fn view(&self) -> Seq<Seq<char>> {
        self.tags@.map_values(|t: Tag| t@)
    }
}

impl Clone for TagSet {
    fn clone(&self) -> (r: Self)
        ensures
            r@ == self@,
    {
        let mut v: Vec<Tag> = Vec::new();
        let mut k: usize = 0;
        while k < self.tags.len()
            invariant
                k <= self.tags@.len(),
                v@.map_values(|t: Tag| t@) == self@.take(k as int),
            decreases self.tags@.len() - k,
        {
            let ghost old_v = v@;
            v.push(self.tags[k].clone());
            assert(v@.map_values(|t: Tag| t@) =~= old_v.map_values(|t: Tag| t@).push(
                self.tags@[k as int]@,
            ));
            assert(self@.take(k + 1) =~= self@.take(k as int).push(self@[k as int]));
            k = k + 1;
        }
        assert(self@.take(k as int) =~= self@);
        TagSet { tags: v }
    }
}

impl TagSet {
    /// An empty set.
    pub fn new() -> (r: Self)
        ensures
            r@ == Seq::<Seq<char>>::empty(),
    {
        let r = TagSet { tags: Vec::new() };
        assert(r@ =~= Seq::<Seq<char>>::empty());
        r
    }

    /// The set holding exactly the given tags, in order.
    pub fn from_tags(tags: Vec<Tag>) -> (r: Self)
        ensures
            r@ == tags@.map_values(|t: Tag| t@),
    {
        TagSet { tags }
    }

    /// The set of the given paths, each normalized.
    pub fn from_strs(tags: &[&str]) -> (r: Self)
        ensures
            r@ == tags@.map_values(|s: &str| normalize_tag_path(s@)),
    {
        let mut v: Vec<Tag> = Vec::new();
        let mut k: usize = 0;
        while k < tags.len()
            invariant
                k <= tags@.len(),
                v@.map_values(|t: Tag| t@) == tags@.take(k as int).map_values(
                    |s: &str| normalize_tag_path(s@),
                ),
            decreases tags@.len() - k,
        {
            let ghost old_v = v@;
            let t = Tag::new(tags[k]);
            v.push(t);
            assert(v@.map_values(|t: Tag| t@) =~= old_v.map_values(|t: Tag| t@).push(
                normalize_tag_path(tags@[k as int]@),
            ));
            assert(tags@.take(k + 1).map_values(|s: &str| normalize_tag_path(s@)) =~= tags@.take(
                k as int,
            ).map_values(|s: &str| normalize_tag_path(s@)).push(normalize_tag_path(tags@[k as int]@)));
            k = k + 1;
        }
        assert(tags@.take(k as int) =~= tags@);
        TagSet { tags: v }
    }

    /// The set of the given paths, each normalized.
    pub fn from_strings(tags: &[String]) -> (r: Self)
        ensures
            r@ == tags@.map_values(|s: String| normalize_tag_path(s@)),
    {
        let mut v: Vec<Tag> = Vec::new();
        let mut k: usize = 0;
        while k < tags.len()
            invariant
                k <= tags@.len(),
                v@.map_values(|t: Tag| t@) == tags@.take(k as int).map_values(
                    |s: String| normalize_tag_path(s@),
                ),
            decreases tags@.len() - k,
        {
            let ghost old_v = v@;
            let t = Tag::new(tags[k].as_str());
            v.push(t);
            assert(v@.map_values(|t: Tag| t@) =~= old_v.map_values(|t: Tag| t@).push(
                normalize_tag_path(tags@[k as int]@),
            ));
            assert(tags@.take(k + 1).map_values(|s: String| normalize_tag_path(s@)) =~= tags@.take(
                k as int,
            ).map_values(|s: String| normalize_tag_path(s@)).push(normalize_tag_path(tags@[k as int]@)));
            k = k + 1;
        }
        assert(tags@.take(k as int) =~= tags@);
        TagSet { tags: v }
    }

    /// Adds a tag unless it is already present.
    pub fn add(&mut self, tag: Tag)
        ensures
            final(self)@ == if old(self)@.contains(tag@) {
                old(self)@
            } else {
                old(self)@.push(tag@)
            },
    {
        if !self.contains(&tag) {
            let ghost s = self@;
            self.tags.push(tag);
            assert(self@ =~= s.push(tag@));
        }
    }

    /// Removes every occurrence of a tag.
    pub fn remove(&mut self, tag: &Tag)
        ensures
            final(self)@ == without(old(self)@, tag@),
    {
        let ghost s = self@;
        let mut v: Vec<Tag> = Vec::new();
        let mut k: usize = 0;
        while k < self.tags.len()
            invariant
                self@ == s,
                k <= s.len(),
                v@.map_values(|t: Tag| t@) == without(s.take(k as int), tag@),
            decreases s.len() - k,
        {
            assert(s.take(k + 1).drop_last() =~= s.take(k as int));
            assert(s.take(k + 1).last() == self.tags@[k as int]@);
            if self.tags[k].0 != tag.0 {
                let ghost old_v = v@;
                v.push(self.tags[k].clone());
                assert(v@.map_values(|t: Tag| t@) =~= old_v.map_values(|t: Tag| t@).push(
                    self.tags@[k as int]@,
                ));
            }
            k = k + 1;
        }
        assert(s.take(k as int) =~= s);
        self.tags = v;
    }

    /// Whether the tag is in the set.
    pub fn contains(&self, tag: &Tag) -> (r: bool)
        ensures
            r == self@.contains(tag@),
    {
        let mut k: usize = 0;
        while k < self.tags.len()
            invariant
                k <= self@.len(),
                forall|i: int| 0 <= i < k ==> self@[i] != tag@,
            decreases self@.len() - k,
        {
            if self.tags[k].0 == tag.0 {
                assert(self@[k as int] == tag@);
                return true;
            }
            k = k + 1;
        }
        false
    }

    /// Whether some tag of the set lies at or below `filter`.
    pub fn matches(&self, filter: &Tag) -> (r: bool)
        ensures
            r == tags_match(self@, filter@),
    {
        let r = TagRegistry::matches_filter(self.tags.as_slice(), filter);
        proof {
            if r {
                let i = choose|i: int|
                    0 <= i < self.tags@.len() && tag_is_under(self.tags@[i]@, filter@);
                assert(tag_is_under(self@[i], filter@));
            }
            if tags_match(self@, filter@) {
                let i = choose|i: int| 0 <= i < self@.len() && tag_is_under(self@[i], filter@);
                assert(tag_is_under(self.tags@[i]@, filter@));
            }
        }
        r
    }

    /// Whether the set matches any of the filters.
    pub fn matches_any(&self, filters: &[Tag]) -> (r: bool)
        ensures
            r == exists|j: int| 0 <= j < filters@.len() && tags_match(self@, filters@[j]@),
    {
        let mut k: usize = 0;
        while k < filters.len()
            invariant
                k <= filters@.len(),
                forall|j: int| 0 <= j < k ==> !tags_match(self@, filters@[j]@),
            decreases filters@.len() - k,
        {
            if self.matches(&filters[k]) {
                return true;
            }
            k = k + 1;
        }
        false
    }

    /// The tags, in order.
    pub fn tags(&self) -> (r: &[Tag])
        ensures
            r@.map_values(|t: Tag| t@) == self@,
    {
        self.tags.as_slice()
    }

    /// Whether the set is empty.
    pub fn is_empty(&self) -> (r: bool)
        ensures
            r == (self@.len() == 0),
    {
        self.tags.len() == 0
    }

    /// Number of tags.
    pub fn len(&self) -> (r: usize)
        ensures
            r == self@.len(),
    {
        self.tags.len()
    }
}

} // verus!
