//! Turning a raw query into what the providers are asked, and the steps
//! results go through before they are scored: provider defaults, user data,
//! tag filters. Fuzzy scoring and ranking are done by the application.

use vstd::prelude::*;
use vstd::string::*;
use vstd::utf8::is_char_boundary;

use crate::filter::{
    filter_passes, magic_check_ok, magic_cut, magic_match_from, preset_key, FilterPresetView,
    FilterPresets, FilterState, FilterStateView, MagicWords,
};
use crate::provider::{Item, ItemView};
use crate::tags::{lookup_alias, normalize_tag_path, tags_match, Tag, TagRegistry, TagSet};
use crate::text::{
    chars_of, first_index_of, first_keyed, lowercase, opt_view, str_views, string_of_range,
    trim_start_ws, trim_str, trim_ws,
};
use crate::userdata::{item_or_default, now_millis, UserDataStore};

verus! {

/// The parts of an inline `#tag rest` query: the tag text and the rest
/// after the first space (leading white space removed, none if empty).
/// None when the query does not start with `#` or the tag text is empty.
pub open spec fn tag_query_parts(q: Seq<char>) -> Option<(Seq<char>, Option<Seq<char>>)> {
    if q.len() == 0 || q[0] != '#' {
        None
    } else {
        let w = q.drop_first();
        let i = first_index_of(w, ' ');
        let t = if i >= 0 { w.take(i) } else { w };
        let rest = if i >= 0 {
            let r = trim_start_ws(w.skip(i + 1));
            if r.len() > 0 { Some(r) } else { None }
        } else {
            None
        };
        if t.len() == 0 {
            None
        } else {
            Some((t, rest))
        }
    }
}

/// The path a tag text resolves to in a registry: an alias's target, or the
/// text itself, normalized.
pub open spec fn resolved_path(m: crate::tags::TagRegistryView, input: Seq<char>) -> Seq<char> {
    match lookup_alias(m, lowercase(input)) {
        Some(v) => normalize_tag_path(v),
        None => normalize_tag_path(input),
    }
}

pub proof fn lemma_first_index_of(s: Seq<char>, c: char)
    ensures
        -1 <= first_index_of(s, c) < s.len(),
        first_index_of(s, c) >= 0 ==> s[first_index_of(s, c)] == c,
        forall|j: int| 0 <= j < s.len() && (first_index_of(s, c) < 0 || j < first_index_of(s, c)) ==> s[j] != c,
    decreases s.len(),
{
    if s.len() > 0 && s[0] != c {
        lemma_first_index_of(s.drop_first(), c);
        assert forall|j: int| 0 <= j < s.len() && (first_index_of(s, c) < 0 || j < first_index_of(s, c)) implies s[j] != c by {
            if j > 0 {
                assert(s[j] == s.drop_first()[j - 1]);
            }
        }
    }
}

/// Position of the first `c` in `v`.
fn find_char(v: &[char], c: char) -> (r: Option<usize>)
    ensures
        match r {
            Some(i) => i as int == first_index_of(v@, c),
            None => first_index_of(v@, c) == -1,
        },
{
    let mut i: usize = 0;
    while i < v.len()
        invariant
            i <= v@.len(),
            forall|j: int| 0 <= j < i ==> v@[j] != c,
        decreases v@.len() - i,
    {
        if v[i] == c {
            proof {
                lemma_first_char(v@, c, i as int);
            }
            return Some(i);
        }
        i = i + 1;
    }
    proof {
        lemma_first_index_of(v@, c);
    }
    None
}

proof fn lemma_first_char(s: Seq<char>, c: char, i: int)
    requires
        0 <= i < s.len(),
        s[i] == c,
        forall|j: int| 0 <= j < i ==> s[j] != c,
    ensures
        first_index_of(s, c) == i,
    decreases i,
{
    if i > 0 {
        assert forall|j: int| 0 <= j < i - 1 implies s.drop_first()[j] != c by {
            assert(s.drop_first()[j] == s[j + 1]);
        }
        lemma_first_char(s.drop_first(), c, i - 1);
    }
}

/// Splits an inline `#tag rest` query: the tag, resolved through the
/// registry's aliases, and the rest of the query.
pub fn parse_tag_filter(registry: &TagRegistry, query: &str) -> (r: (Option<Tag>, Option<String>))
    requires
        registry.wf(),
    ensures
        match tag_query_parts(query@) {
            None => r.0 is None && r.1 is None,
            Some((t, rest)) => r.0 matches Some(tag) && tag@ == resolved_path(registry@, t) && opt_view(
                r.1,
            ) == rest,
        },
{
    let v = chars_of(query);
    if v.len() == 0 || v[0] != '#' {
        return (None, None);
    }
    let ghost w = query@.drop_first();
    let n = v.len();
    assert(v@.subrange(1, n as int) =~= w);
    let rest_v = string_of_range(v.as_slice(), 1, n);
    let wv = chars_of(rest_v.as_str());
    let (tag_text, rest) = match find_char(wv.as_slice(), ' ') {
        Some(i) => {
            proof {
                lemma_first_index_of(w, ' ');
            }
            assert(wv@.subrange(0, i as int) =~= w.take(i as int));
            let t = string_of_range(wv.as_slice(), 0, i);
            let after = string_of_range(wv.as_slice(), i + 1, wv.len());
            assert(after@ =~= w.skip(i + 1));
            let r = crate::text::trim_start_str(after.as_str());
            (t, if r.as_str().is_empty() {
                None
            } else {
                Some(r)
            })
        },
        None => (rest_v, None),
    };
    if tag_text.as_str().is_empty() {
        return (None, None);
    }
    let tag = registry.resolve(tag_text.as_str());
    (Some(tag), rest)
}

/// The providers a one-character prefix and a space select, and the query
/// after them: `a firefox` asks the providers with prefix `a`. A query
/// without such a prefix asks all providers.
pub open spec fn prefix_parts(q: Seq<char>, prefixes: Seq<(String, Option<char>)>) -> (Option<Seq<Seq<char>>>, Seq<char>) {
    if q.len() >= 2 && q[1] == ' ' {
        let names = prefix_matches(prefixes, q[0], prefixes.len() as int);
        if names.len() > 0 {
            (Some(names), trim_start_ws(q.skip(2)))
        } else {
            (None, q)
        }
    } else {
        (None, q)
    }
}

/// The names of the first `k` providers whose prefix is `c`, in order.
pub open spec fn prefix_matches(prefixes: Seq<(String, Option<char>)>, c: char, k: int) -> Seq<Seq<char>>
    decreases k,
{
    if k <= 0 {
        Seq::empty()
    } else if prefixes[k - 1].1 == Some(c) {
        prefix_matches(prefixes, c, k - 1).push(prefixes[k - 1].0@)
    } else {
        prefix_matches(prefixes, c, k - 1)
    }
}

/// Splits a provider prefix off a query, given each provider's name and
/// prefix character.
pub fn parse_prefix(query: &str, prefixes: &[(String, Option<char>)]) -> (r: (Option<Vec<String>>, String))
    requires
        query@.len() >= 2 && query@[1] == ' ' && prefix_matches(
            prefixes@,
            query@[0],
            prefixes@.len() as int,
        ).len() > 0 ==> (query@[0] as u32) < 0x800,
    ensures
        ({
            let (names, rest) = prefix_parts(query@, prefixes@);
            &&& r.1@ == rest
            &&& match r.0 {
                Some(v) => names == Some(str_views(v@)),
                None => names is None,
            }
        }),
{
    let v = chars_of(query);
    if v.len() >= 2 && v[1] == ' ' {
        let c = v[0];
        let mut names: Vec<String> = Vec::new();
        let mut i: usize = 0;
        while i < prefixes.len()
            invariant
                i <= prefixes@.len(),
                str_views(names@) == prefix_matches(prefixes@, c, i as int),
            decreases prefixes@.len() - i,
        {
            if prefixes[i].1 == Some(c) {
                let ghost before = str_views(names@);
                names.push(prefixes[i].0.clone());
                assert(str_views(names@) =~= before.push(prefixes@[i as int].0@));
            }
            i = i + 1;
        }
        if names.len() > 0 {
            let after = string_of_range(v.as_slice(), 2, v.len());
            assert(after@ =~= query@.skip(2));
            let rest = crate::text::trim_start_str(after.as_str());
            return (Some(names), rest);
        }
    }
    (None, query.to_owned())
}

/// `s` without its leading quote characters.
pub open spec fn trim_quotes(s: Seq<char>) -> Seq<char>
    decreases s.len(),
{
    if s.len() > 0 && s[0] == '\'' {
        trim_quotes(s.drop_first())
    } else {
        s
    }
}

/// Whether a query asks for exact matching (it starts with `'`), and the
/// query without its leading quotes.
pub fn exact_query(query: &str) -> (r: (bool, String))
    ensures
        r.0 == (query@.len() > 0 && query@[0] == '\''),
        r.1@ == if r.0 { trim_quotes(query@) } else { query@ },
{
    let v = chars_of(query);
    let exact = v.len() > 0 && v[0] == '\'';
    if !exact {
        return (false, query.to_owned());
    }
    let mut i: usize = 0;
    assert(query@.skip(0) =~= query@);
    while i < v.len() && v[i] == '\''
        invariant
            v@ == query@,
            i <= v@.len(),
            trim_quotes(query@) == trim_quotes(query@.skip(i as int)),
        decreases v@.len() - i,
    {
        assert(query@.skip(i as int).drop_first() =~= query@.skip(i + 1));
        i = i + 1;
    }
    let rest = string_of_range(v.as_slice(), i, v.len());
    assert(rest@ =~= query@.skip(i as int));
    (true, rest)
}

/// What a query asks once it is parsed.
#[derive(Debug)]
pub struct QueryPlan {
    /// The filter that applies: a magic word's preset, or the given one.
    pub filter: FilterState,
    /// The inline `#tag`, resolved.
    pub tag_filter: Option<Tag>,
    /// The providers a prefix selected; all when none.
    pub targets: Option<Vec<String>>,
    /// The text the providers are asked.
    pub query: String,
    /// Whether the text is matched exactly.
    pub exact: bool,
}

/// The outcome of a magic word at the start of a query: the preset's
/// filter and the rest of the query, if a word matches and its preset exists.
pub open spec fn magic_outcome(
    words: Seq<crate::filter::MagicWordView>,
    presets: Seq<FilterPresetView>,
    query: Seq<char>,
) -> Option<(FilterStateView, Seq<u8>)> {
    match magic_match_from(words, lowercase(query), 0) {
        None => None,
        Some((i, cont)) => {
            let p = first_keyed(presets, preset_key(), words[i].preset_name);
            if p < 0 {
                None
            } else {
                Some(
                    (
                        presets[p].state,
                        if cont {
                            vstd::utf8::encode_utf8(query).skip(magic_cut(words, i))
                        } else {
                            Seq::empty()
                        },
                    ),
                )
            }
        },
    }
}

/// A magic word at the start of a query: the filter of its preset and the
/// rest of the query, if the word matches and its preset exists.
pub fn check_magic_word(words: &MagicWords, presets: &FilterPresets, query: &str) -> (r: Option<(FilterState, String)>)
    requires
        magic_check_ok(words@, query),
    ensures
        match magic_outcome(words@, presets@, query@) {
            None => r is None,
            Some((f, rest)) => r matches Some((g, s)) && g@ == f && vstd::utf8::encode_utf8(s@) == rest,
        },
{
    let (name, rest) = match words.check(query) {
        Some(x) => x,
        None => return None,
    };
    let preset = match presets.get(name) {
        Some(p) => p,
        None => return None,
    };
    proof {
        reveal_strlit("");
        crate::text::lemma_first_keyed_bounds(presets@, preset_key(), name@);
    }
    let rest_owned = rest.to_owned();
    Some((preset.state.clone(), rest_owned))
}

/// What `MagicWords::check` needs of a query text: where the matched keyword
/// is followed by a space, the rest starts on a character boundary.
pub open spec fn magic_ok_text(words: Seq<crate::filter::MagicWordView>, q: Seq<char>) -> bool {
    match magic_match_from(words, lowercase(q), 0) {
        Some((i, true)) => magic_cut(words, i) <= usize::MAX && is_char_boundary(
            vstd::utf8::encode_utf8(q),
            magic_cut(words, i),
        ),
        _ => true,
    }
}

/// The content of a query plan.
pub struct QueryPlanView {
    pub filter: FilterStateView,
    pub tag_filter: Option<Seq<char>>,
    pub targets: Option<Seq<Seq<char>>>,
    pub query: Seq<char>,
    pub exact: bool,
}

impl View for QueryPlan {
    type V = QueryPlanView;

    open spec fn view(&self) -> QueryPlanView {
        QueryPlanView {
            filter: self.filter@,
            tag_filter: match self.tag_filter {
                Some(t) => Some(t@),
                None => None,
            },
            targets: match self.targets {
                Some(v) => Some(str_views(v@)),
                None => None,
            },
            query: self.query@,
            exact: self.exact,
        }
    }
}

/// The filter and the text that apply once a magic word is taken off a
/// query: the preset's filter and the rest, or the given filter and the
/// query itself.
pub open spec fn after_magic(
    words: Seq<crate::filter::MagicWordView>,
    presets: Seq<FilterPresetView>,
    q: Seq<char>,
    filter: FilterStateView,
) -> (FilterStateView, Seq<char>) {
    match magic_outcome(words, presets, q) {
        Some((f, rest)) => (f, vstd::utf8::decode_utf8(rest)),
        None => (filter, q),
    }
}

/// The inline tag of a query, resolved, and the text the providers are
/// asked: what follows the tag, or the whole query when nothing follows it.
pub open spec fn after_tag(reg: crate::tags::TagRegistryView, q: Seq<char>) -> (Option<Seq<char>>, Seq<char>) {
    match tag_query_parts(q) {
        None => (None, q),
        Some((t, rest)) => (
            Some(resolved_path(reg, t)),
            match rest {
                Some(r) => r,
                None => q,
            },
        ),
    }
}

/// The plan of a raw query: trimmed, a magic word applied, the inline tag
/// and the provider prefix split off, and exact mode detected.
pub open spec fn plan_of(
    reg: crate::tags::TagRegistryView,
    words: Seq<crate::filter::MagicWordView>,
    presets: Seq<FilterPresetView>,
    prefixes: Seq<(String, Option<char>)>,
    raw: Seq<char>,
    filter: FilterStateView,
) -> QueryPlanView {
    let (f, e) = after_magic(words, presets, trim_ws(raw), filter);
    let (tag, w) = after_tag(reg, e);
    let (targets, q) = prefix_parts(w, prefixes);
    let exact = q.len() > 0 && q[0] == '\'';
    QueryPlanView {
        filter: f,
        tag_filter: tag,
        targets,
        query: if exact { trim_quotes(q) } else { q },
        exact,
    }
}

/// Whether a provider prefix can be cut off a text: a prefix that selects
/// providers is one byte or two long in UTF-8.
pub open spec fn prefix_cut_ok(w: Seq<char>, prefixes: Seq<(String, Option<char>)>) -> bool {
    w.len() >= 2 && w[1] == ' ' && prefix_matches(prefixes, w[0], prefixes.len() as int).len() > 0
        ==> (w[0] as u32) < 0x800
}

/// Whether a raw query can be planned: the magic word and the provider
/// prefix end on character boundaries of the text they are cut from.
pub open spec fn plannable(
    reg: crate::tags::TagRegistryView,
    words: Seq<crate::filter::MagicWordView>,
    presets: Seq<FilterPresetView>,
    prefixes: Seq<(String, Option<char>)>,
    raw: Seq<char>,
    filter: FilterStateView,
) -> bool {
    let t = trim_ws(raw);
    let (f, e) = after_magic(words, presets, t, filter);
    let (tag, w) = after_tag(reg, e);
    magic_ok_text(words, t) && prefix_cut_ok(w, prefixes)
}

proof fn lemma_prefix_matches_grow(p: Seq<(String, Option<char>)>, c: char, j: int, k: int)
    requires
        0 <= j <= k,
    ensures
        prefix_matches(p, c, j).len() <= prefix_matches(p, c, k).len(),
    decreases k - j,
{
    if j < k {
        lemma_prefix_matches_grow(p, c, j, k - 1);
    }
}

/// Whether [`parse_prefix`] can take this text.
fn can_cut_prefix(query: &str, prefixes: &[(String, Option<char>)]) -> (r: bool)
    ensures
        r == prefix_cut_ok(query@, prefixes@),
{
    let v = chars_of(query);
    if v.len() >= 2 && v[1] == ' ' {
        let c = v[0];
        if (c as u32) < 0x800 {
            return true;
        }
        let mut i: usize = 0;
        while i < prefixes.len()
            invariant
                i <= prefixes@.len(),
                c == query@[0],
                query@.len() >= 2,
                query@[1] == ' ',
                !((c as u32) < 0x800),
                prefix_matches(prefixes@, c, i as int).len() == 0,
            decreases prefixes@.len() - i,
        {
            if prefixes[i].1 == Some(c) {
                proof {
                    lemma_prefix_matches_grow(prefixes@, c, i + 1, prefixes@.len() as int);
                }
                return false;
            }
            i = i + 1;
        }
    }
    true
}

/// Plans a raw query: trims it, applies a magic word, splits off an inline
/// `#tag` and a provider prefix, and detects exact mode. `None` where the
/// magic word or the prefix does not end on a character boundary.
pub fn plan_query(
    registry: &TagRegistry,
    words: &MagicWords,
    presets: &FilterPresets,
    prefixes: &[(String, Option<char>)],
    raw_query: &str,
    filter: &FilterState,
) -> (r: Option<QueryPlan>)
    requires
        registry.wf(),
    ensures
        r is Some <==> plannable(registry@, words@, presets@, prefixes@, raw_query@, filter@),
        r matches Some(p) ==> p@ == plan_of(registry@, words@, presets@, prefixes@, raw_query@, filter@),
{
    let t = trim_str(raw_query);
    if !words.can_check(t.as_str()) {
        return None;
    }
    let (eff_filter, eff_query) = match check_magic_word(words, presets, t.as_str()) {
        Some((f, rest)) => {
            proof {
                vstd::utf8::encode_utf8_decode_utf8(rest@);
            }
            (f, rest)
        },
        None => (filter.clone(), t),
    };
    let ghost e = eff_query@;
    assert(after_magic(words@, presets@, trim_ws(raw_query@), filter@) == (eff_filter@, e));
    let (tag_filter, after) = parse_tag_filter(registry, eff_query.as_str());
    let working = match after {
        Some(w) => w,
        None => eff_query,
    };
    assert(after_tag(registry@, e).1 == working@);
    if !can_cut_prefix(working.as_str(), prefixes) {
        return None;
    }
    let (targets, q) = parse_prefix(working.as_str(), prefixes);
    let (exact, query) = exact_query(q.as_str());
    Some(QueryPlan { filter: eff_filter, tag_filter, targets, query, exact })
}

/// Whether the plan asks a provider: it is among the providers a prefix
/// selected, if any, and it is the filter's provider, if the filter names one.
pub open spec fn plan_asks(p: QueryPlanView, name: Seq<char>) -> bool {
    &&& match p.targets {
        Some(t) => t.contains(name),
        None => true,
    }
    &&& match p.filter.provider {
        Some(pf) => pf == name,
        None => true,
    }
}

impl QueryPlan {
    /// Whether the provider called `name` is asked.
    pub fn asks(&self, name: &str) -> (r: bool)
        ensures
            r == plan_asks(self@, name@),
    {
        if let Some(targets) = &self.targets {
            let found = crate::text::find_str(targets.as_slice(), name);
            proof {
                crate::text::lemma_index_of_str(str_views(targets@), name@);
            }
            if found.is_none() {
                return false;
            }
        }
        match &self.filter.provider {
            Some(pf) => crate::text::str_eq(pf.as_str(), name),
            None => true,
        }
    }
}

// ── Result steps ───────────────────────────────────────────────

/// An item as a provider hands it in: the provider's name when it has none,
/// and the provider's default tags when it has no tags.
pub open spec fn adopted(it: ItemView, name: Seq<char>, default_tags: Seq<String>) -> ItemView {
    ItemView {
        provider: if it.provider.len() == 0 { name } else { it.provider },
        tags: if it.tags.len() == 0 && default_tags.len() > 0 {
            default_tags.map_values(|s: String| normalize_tag_path(s@))
        } else {
            it.tags
        },
        ..it
    }
}

/// The first `max` items of a provider, with its name and default tags.
pub fn adopt_provider_items(items: &[Item], name: &str, max: usize, default_tags: &[String]) -> (r: Vec<Item>)
    ensures
        r@.len() == if items@.len() < max { items@.len() } else { max as nat },
        forall|i: int| 0 <= i < r@.len() ==> (#[trigger] r@[i])@ == adopted(items@[i]@, name@, default_tags@),
{
    let n = if items.len() < max {
        items.len()
    } else {
        max
    };
    let mut r: Vec<Item> = Vec::new();
    let mut i: usize = 0;
    while i < n
        invariant
            n <= items@.len(),
            i <= n,
            r@.len() == i,
            forall|j: int| 0 <= j < i ==> (#[trigger] r@[j])@ == adopted(items@[j]@, name@, default_tags@),
        decreases n - i,
    {
        let mut it = items[i].clone();
        if it.provider.as_str().is_empty() {
            it.provider = name.to_owned();
        }
        if it.tags.is_empty() && default_tags.len() > 0 {
            it.tags = TagSet::from_strings(default_tags);
        }
        r.push(it);
        i = i + 1;
    }
    r
}

/// Tags with `new` added one by one, each normalized and only if absent.
pub open spec fn with_tags_added(tags: Seq<Seq<char>>, new: Seq<Seq<char>>) -> Seq<Seq<char>>
    decreases new.len(),
{
    if new.len() == 0 {
        tags
    } else {
        let t = with_tags_added(tags, new.drop_last());
        let n = normalize_tag_path(new.last());
        if t.contains(n) {
            t
        } else {
            t.push(n)
        }
    }
}

/// The positions of the items not hidden by the user, among the first `k`.
pub open spec fn shown_upto(items: Seq<Item>, ud: crate::userdata::UserDataView, k: int) -> Seq<int>
    decreases k,
{
    if k <= 0 {
        Seq::empty()
    } else if item_or_default(ud, items[k - 1].id@).hidden {
        shown_upto(items, ud, k - 1)
    } else {
        shown_upto(items, ud, k - 1).push(k - 1)
    }
}

/// Drops the items the user hid and adds the user's tags to the others.
pub fn apply_user_data(items: &[Item], ud: &UserDataStore) -> (r: Vec<Item>)
    requires
        ud.wf(),
    ensures
        ({
            let shown = shown_upto(items@, ud@, items@.len() as int);
            &&& r@.len() == shown.len()
            &&& forall|i: int|
                0 <= i < r@.len() ==> {
                    let it = items@[shown[i]]@;
                    (#[trigger] r@[i])@ == ItemView {
                        tags: with_tags_added(it.tags, item_or_default(ud@, it.id).user_tags),
                        ..it
                    }
                }
            &&& forall|i: int| 0 <= i < r@.len() ==> 0 <= #[trigger] shown[i] < items@.len()
        }),
{
    let mut r: Vec<Item> = Vec::new();
    let mut i: usize = 0;
    while i < items.len()
        invariant
            ud.wf(),
            i <= items@.len(),
            r@.len() == shown_upto(items@, ud@, i as int).len(),
            forall|j: int| 0 <= j < r@.len() ==> 0 <= #[trigger] shown_upto(items@, ud@, i as int)[j] < i,
            forall|j: int|
                0 <= j < r@.len() ==> {
                    let it = items@[shown_upto(items@, ud@, i as int)[j]]@;
                    (#[trigger] r@[j])@ == ItemView {
                        tags: with_tags_added(it.tags, item_or_default(ud@, it.id).user_tags),
                        ..it
                    }
                },
        decreases items@.len() - i,
    {
        let item = &items[i];
        if !ud.is_hidden(item.id.as_str()) {
            let mut it = item.clone();
            let user = ud.user_tags(item.id.as_str());
            let ghost ut = str_views(user@);
            let mut k: usize = 0;
            assert(ut.take(0) =~= Seq::<Seq<char>>::empty());
            while k < user.len()
                invariant
                    k <= user@.len(),
                    ut == str_views(user@),
                    it@ == (ItemView { tags: with_tags_added(item@.tags, ut.take(k as int)), ..item@ }),
                decreases user@.len() - k,
            {
                it.tags.add(Tag::new(user[k].as_str()));
                assert(ut.take(k + 1).drop_last() =~= ut.take(k as int));
                k = k + 1;
            }
            assert(ut.take(k as int) =~= ut);
            r.push(it);
        }
        i = i + 1;
    }
    r
}

/// The positions of the items whose tags match `tag`, among the first `k`.
pub open spec fn tagged_upto(items: Seq<Item>, tag: Seq<char>, k: int) -> Seq<int>
    decreases k,
{
    if k <= 0 {
        Seq::empty()
    } else if tags_match(items[k - 1]@.tags, tag) {
        tagged_upto(items, tag, k - 1).push(k - 1)
    } else {
        tagged_upto(items, tag, k - 1)
    }
}

/// The items tagged with `tag` or a tag under it, in order.
pub fn retain_tagged(items: &[Item], tag: &Tag) -> (r: Vec<Item>)
    ensures
        ({
            let kept = tagged_upto(items@, tag@, items@.len() as int);
            &&& r@.len() == kept.len()
            &&& forall|i: int| 0 <= i < r@.len() ==> 0 <= #[trigger] kept[i] < items@.len() && r@[i]@ == items@[kept[i]]@
        }),
{
    let mut r: Vec<Item> = Vec::new();
    let mut i: usize = 0;
    while i < items.len()
        invariant
            i <= items@.len(),
            r@.len() == tagged_upto(items@, tag@, i as int).len(),
            forall|j: int|
                0 <= j < r@.len() ==> 0 <= #[trigger] tagged_upto(items@, tag@, i as int)[j] < i
                    && r@[j]@ == items@[tagged_upto(items@, tag@, i as int)[j]]@,
        decreases items@.len() - i,
    {
        if items[i].tags.matches(tag) {
            r.push(items[i].clone());
        }
        i = i + 1;
    }
    r
}

/// The positions of the items a filter lets through, among the first `k`.
pub open spec fn passing_upto(items: Seq<Item>, f: FilterStateView, k: int) -> Seq<int>
    decreases k,
{
    if k <= 0 {
        Seq::empty()
    } else if filter_passes(f, items[k - 1]@.tags) {
        passing_upto(items, f, k - 1).push(k - 1)
    } else {
        passing_upto(items, f, k - 1)
    }
}

/// The items a filter lets through, in order.
pub fn retain_filtered(items: &[Item], filter: &FilterState) -> (r: Vec<Item>)
    ensures
        ({
            let kept = passing_upto(items@, filter@, items@.len() as int);
            &&& r@.len() == kept.len()
            &&& forall|i: int| 0 <= i < r@.len() ==> 0 <= #[trigger] kept[i] < items@.len() && r@[i]@ == items@[kept[i]]@
        }),
{
    let mut r: Vec<Item> = Vec::new();
    let mut i: usize = 0;
    while i < items.len()
        invariant
            i <= items@.len(),
            r@.len() == passing_upto(items@, filter@, i as int).len(),
            forall|j: int|
                0 <= j < r@.len() ==> 0 <= #[trigger] passing_upto(items@, filter@, i as int)[j] < i
                    && r@[j]@ == items@[passing_upto(items@, filter@, i as int)[j]]@,
        decreases items@.len() - i,
    {
        if filter.matches(&items[i].tags) {
            r.push(items[i].clone());
        }
        i = i + 1;
    }
    r
}

/// How results are scored.
#[derive(Debug, Clone, Copy, PartialEq, Eq, Structural)]
pub enum ScoreMode {
    /// Kept in provider order.
    Unscored,
    /// Exact substring matching.
    Exact,
    /// Fuzzy matching.
    Fuzzy,
}

/// How results are scored: not at all without a query, a tag or an included
/// tag; exactly in exact mode; otherwise fuzzily when there is a query.
pub fn score_mode(query: &str, has_tag_filter: bool, filter: &FilterState, exact: bool) -> (r: ScoreMode)
    ensures
        r == if query@.len() == 0 && !has_tag_filter && filter@.included.len() == 0 {
            ScoreMode::Unscored
        } else if exact {
            ScoreMode::Exact
        } else if query@.len() == 0 {
            ScoreMode::Unscored
        } else {
            ScoreMode::Fuzzy
        },
{
    if query.is_empty() && !has_tag_filter && filter.included.len() == 0 {
        ScoreMode::Unscored
    } else if exact {
        ScoreMode::Exact
    } else if query.is_empty() {
        ScoreMode::Unscored
    } else {
        ScoreMode::Fuzzy
    }
}

/// Records `now` as the first-seen time of every item not seen before.
pub fn mark_all_seen_at(ud: &mut UserDataStore, items: &[Item], now: i64)
    requires
        old(ud).wf(),
    ensures
        final(ud).wf(),
        final(ud)@ == seen_all(old(ud)@, items@, now, items@.len() as int),
{
    let mut i: usize = 0;
    while i < items.len()
        invariant
            ud.wf(),
            i <= items@.len(),
            ud@ == seen_all(old(ud)@, items@, now, i as int),
        decreases items@.len() - i,
    {
        ud.mark_seen_at(items[i].id.as_str(), now);
        i = i + 1;
    }
}

/// `v` after recording `now` for the first `k` items.
pub open spec fn seen_all(v: crate::userdata::UserDataView, items: Seq<Item>, now: i64, k: int) -> crate::userdata::UserDataView
    decreases k,
{
    if k <= 0 {
        v
    } else {
        crate::userdata::seen_at(seen_all(v, items, now, k - 1), items[k - 1].id@, now)
    }
}

/// Records the current time as the first-seen time of every item not seen
/// before; nothing changes when the system clock cannot be read as a time
/// after the epoch.
pub fn mark_all_seen(ud: &mut UserDataStore, items: &[Item])
    requires
        old(ud).wf(),
    ensures
        final(ud).wf(),
        final(ud)@ == old(ud)@ || exists|now: i64| final(ud)@ == #[trigger] seen_all(
            old(ud)@,
            items@,
            now,
            items@.len() as int,
        ),
{
    if let Some(now) = now_millis() {
        mark_all_seen_at(ud, items, now);
    }
}

} // verus!
