//! Filter state, filter presets and magic words.
//!
//! Include tags: an item must match at least one of them. Exclude tags: an
//! item must match none of them. Presets save a named filter state; magic
//! words are keywords that load a preset when typed at the start of a query.

use vstd::prelude::*;
use vstd::string::*;
use vstd::utf8::{encode_utf8, is_char_boundary};

use crate::tags::{normalize_tag_path, tags_match, Tag, TagSet};
use crate::text::{
    chars_eq, chars_of, clone_strings, drop_keyed, first_keyed, has_prefix, lemma_first_keyed,
    lemma_first_keyed_bounds, lowercase, position_str, starts_with, str_key, str_views,
    to_lowercase, without_str,
};

verus! {

/// The content of a filter state.
pub struct FilterStateView {
    pub included: Seq<Seq<char>>,
    pub excluded: Seq<Seq<char>>,
    pub provider: Option<Seq<char>>,
}

/// Active filter state.
#[derive(Debug, PartialEq)]
pub struct FilterState {
    /// Include tags: an item passes if it matches any of these.
    pub included: Vec<String>,
    /// Exclude tags: an item is filtered out if it matches any of these.
    pub excluded: Vec<String>,
    /// Provider filter: only show results from this provider.
    pub provider: Option<String>,
}

impl View for FilterState {
    type V = FilterStateView;

    open spec fn view(&self) -> FilterStateView {
        FilterStateView {
            included: str_views(self.included@),
            excluded: str_views(self.excluded@),
            provider: match self.provider {
                Some(p) => Some(p@),
                None => None,
            },
        }
    }
}

impl Clone for FilterState {
    fn clone(&self) -> (r: Self)
        ensures
            r@ == self@,
    {
        FilterState {
            included: clone_strings(&self.included),
            excluded: clone_strings(&self.excluded),
            provider: match &self.provider {
                Some(p) => Some(p.clone()),
                None => None,
            },
        }
    }
}

/// The empty filter state.
pub open spec fn empty_filter() -> FilterStateView {
    FilterStateView { included: Seq::empty(), excluded: Seq::empty(), provider: None }
}

/// Whether a filter state lets an item with the given tags through:
/// no excluded tag matches, and some included tag matches unless there is none.
pub open spec fn filter_passes(f: FilterStateView, tags: Seq<Seq<char>>) -> bool {
    &&& !exists|i: int| 0 <= i < f.excluded.len() && tags_match(tags, normalize_tag_path(f.excluded[i]))
    &&& (f.included.len() == 0 || exists|j: int|
        0 <= j < f.included.len() && tags_match(tags, normalize_tag_path(f.included[j])))
}

/// `f` after toggling `tag` as included (see [`FilterState::toggle_include`]).
pub open spec fn toggled_include(f: FilterStateView, tag: Seq<char>) -> FilterStateView {
    let i = first_keyed(f.included, str_key(), tag);
    if i >= 0 {
        FilterStateView { included: f.included.remove(i), ..f }
    } else {
        FilterStateView {
            included: f.included.push(tag),
            excluded: drop_keyed(f.excluded, str_key(), tag),
            ..f
        }
    }
}

/// `f` after toggling `tag` as excluded (see [`FilterState::toggle_exclude`]).
pub open spec fn toggled_exclude(f: FilterStateView, tag: Seq<char>) -> FilterStateView {
    let i = first_keyed(f.excluded, str_key(), tag);
    if i >= 0 {
        FilterStateView { excluded: f.excluded.remove(i), ..f }
    } else {
        FilterStateView {
            excluded: f.excluded.push(tag),
            included: drop_keyed(f.included, str_key(), tag),
            ..f
        }
    }
}

/// `f` without `tag` in either list.
pub open spec fn without_tag(f: FilterStateView, tag: Seq<char>) -> FilterStateView {
    FilterStateView {
        included: drop_keyed(f.included, str_key(), tag),
        excluded: drop_keyed(f.excluded, str_key(), tag),
        ..f
    }
}

/// Whether a filter is active as a label.
#[derive(Debug, Clone, Copy, PartialEq, Eq, Structural)]
pub enum FilterMode {
    Include,
    Exclude,
}

/// The content of a filter label.
pub struct FilterLabelView {
    pub tag: Seq<char>,
    pub mode: FilterMode,
}

/// A display-friendly active filter.
#[derive(Debug, PartialEq)]
pub struct FilterLabel {
    pub tag: String,
    pub mode: FilterMode,
}

impl View for FilterLabel {
    type V = FilterLabelView;

    open spec fn view(&self) -> FilterLabelView {
        FilterLabelView { tag: self.tag@, mode: self.mode }
    }
}

impl Clone for FilterLabel {
    fn clone(&self) -> (r: Self)
        ensures
            r == *self,
    {
        FilterLabel { tag: self.tag.clone(), mode: self.mode }
    }
}

/// The labels of a filter state: included tags first, then excluded tags.
pub open spec fn labels_of(f: FilterStateView) -> Seq<FilterLabelView> {
    f.included.map_values(|t: Seq<char>| FilterLabelView { tag: t, mode: FilterMode::Include })
        + f.excluded.map_values(|t: Seq<char>| FilterLabelView { tag: t, mode: FilterMode::Exclude })
}

impl Default for FilterState {
    fn default() -> (r: Self)
        ensures
            r@ == empty_filter(),
    {
        FilterState::new()
    }
}

impl FilterState {
    /// An empty filter state.
    pub fn new() -> (r: Self)
        ensures
            r@ == empty_filter(),
    {
        let r = FilterState { included: Vec::new(), excluded: Vec::new(), provider: None };
        assert(r@.included =~= Seq::<Seq<char>>::empty());
        assert(r@.excluded =~= Seq::<Seq<char>>::empty());
        r
    }

    /// Whether no filter is active.
    pub fn is_empty(&self) -> (r: bool)
        ensures
            r == (self@.included.len() == 0 && self@.excluded.len() == 0 && self@.provider is None),
    {
        self.included.len() == 0 && self.excluded.len() == 0 && self.provider.is_none()
    }

    /// Clears all filters.
    pub fn clear(&mut self)
        ensures
            final(self)@ == empty_filter(),
    {
        self.included = Vec::new();
        self.excluded = Vec::new();
        self.provider = None;
        assert(self@.included =~= Seq::<Seq<char>>::empty());
        assert(self@.excluded =~= Seq::<Seq<char>>::empty());
    }

    /// Toggles a tag as included filter: removes its first occurrence if it is
    /// included, otherwise removes it from the excludes and includes it.
    pub fn toggle_include(&mut self, tag: &str)
        ensures
            ({
                let i = first_keyed(old(self)@.included, str_key(), tag@);
                if i >= 0 {
                    final(self)@ == (FilterStateView {
                        included: old(self)@.included.remove(i),
                        ..old(self)@
                    })
                } else {
                    final(self)@ == (FilterStateView {
                        included: old(self)@.included.push(tag@),
                        excluded: drop_keyed(old(self)@.excluded, str_key(), tag@),
                        ..old(self)@
                    })
                }
            }),
    {
        let ghost old_self = self@;
        proof {
            lemma_first_keyed_bounds(old_self.included, str_key(), tag@);
        }
        match position_str(&self.included, tag) {
            Some(pos) => {
                self.included.remove(pos);
                assert(self@.included =~= old_self.included.remove(pos as int));
            },
            None => {
                self.excluded = without_str(&self.excluded, tag);
                self.included.push(tag.to_owned());
                assert(self@.included =~= old_self.included.push(tag@));
            },
        }
    }

    /// Toggles a tag as excluded filter: removes its first occurrence if it is
    /// excluded, otherwise removes it from the includes and excludes it.
    pub fn toggle_exclude(&mut self, tag: &str)
        ensures
            ({
                let i = first_keyed(old(self)@.excluded, str_key(), tag@);
                if i >= 0 {
                    final(self)@ == (FilterStateView {
                        excluded: old(self)@.excluded.remove(i),
                        ..old(self)@
                    })
                } else {
                    final(self)@ == (FilterStateView {
                        excluded: old(self)@.excluded.push(tag@),
                        included: drop_keyed(old(self)@.included, str_key(), tag@),
                        ..old(self)@
                    })
                }
            }),
    {
        let ghost old_self = self@;
        proof {
            lemma_first_keyed_bounds(old_self.excluded, str_key(), tag@);
        }
        match position_str(&self.excluded, tag) {
            Some(pos) => {
                self.excluded.remove(pos);
                assert(self@.excluded =~= old_self.excluded.remove(pos as int));
            },
            None => {
                self.included = without_str(&self.included, tag);
                self.excluded.push(tag.to_owned());
                assert(self@.excluded =~= old_self.excluded.push(tag@));
            },
        }
    }

    /// Removes a tag from both filter lists.
    pub fn remove_tag(&mut self, tag: &str)
        ensures
            final(self)@ == (FilterStateView {
                included: drop_keyed(old(self)@.included, str_key(), tag@),
                excluded: drop_keyed(old(self)@.excluded, str_key(), tag@),
                ..old(self)@
            }),
    {
        self.included = without_str(&self.included, tag);
        self.excluded = without_str(&self.excluded, tag);
    }

    /// Whether an item with these tags passes the filter.
    pub fn matches(&self, item_tags: &TagSet) -> (r: bool)
        ensures
            r == filter_passes(self@, item_tags@),
    {
        let mut k: usize = 0;
        while k < self.excluded.len()
            invariant
                k <= self@.excluded.len(),
                forall|i: int|
                    0 <= i < k ==> !tags_match(item_tags@, normalize_tag_path(self@.excluded[i])),
            decreases self@.excluded.len() - k,
        {
            let tag = Tag::new(self.excluded[k].as_str());
            if item_tags.matches(&tag) {
                assert(tags_match(item_tags@, normalize_tag_path(self@.excluded[k as int])));
                return false;
            }
            k = k + 1;
        }
        if self.included.len() == 0 {
            return true;
        }
        let mut j: usize = 0;
        while j < self.included.len()
            invariant
                j <= self@.included.len(),
                forall|i: int|
                    0 <= i < self@.excluded.len() ==> !tags_match(
                        item_tags@,
                        normalize_tag_path(self@.excluded[i]),
                    ),
                forall|i: int|
                    0 <= i < j ==> !tags_match(item_tags@, normalize_tag_path(self@.included[i])),
            decreases self@.included.len() - j,
        {
            let tag = Tag::new(self.included[j].as_str());
            if item_tags.matches(&tag) {
                assert(tags_match(item_tags@, normalize_tag_path(self@.included[j as int])));
                return true;
            }
            j = j + 1;
        }
        false
    }

    /// The active filters as labels, included tags first.
    pub fn active_labels(&self) -> (r: Vec<FilterLabel>)
        ensures
            r@.map_values(|l: FilterLabel| l@) == labels_of(self@),
    {
        let ghost inc = self@.included.map_values(
            |t: Seq<char>| FilterLabelView { tag: t, mode: FilterMode::Include },
        );
        let ghost exc = self@.excluded.map_values(
            |t: Seq<char>| FilterLabelView { tag: t, mode: FilterMode::Exclude },
        );
        let mut labels: Vec<FilterLabel> = Vec::new();
        let mut k: usize = 0;
        while k < self.included.len()
            invariant
                k <= self@.included.len(),
                inc == self@.included.map_values(
                    |t: Seq<char>| FilterLabelView { tag: t, mode: FilterMode::Include },
                ),
                labels@.map_values(|l: FilterLabel| l@) == inc.take(k as int),
            decreases self@.included.len() - k,
        {
            let ghost old_l = labels@;
            let l = FilterLabel { tag: self.included[k].clone(), mode: FilterMode::Include };
            labels.push(l);
            assert(labels@.map_values(|l: FilterLabel| l@) =~= old_l.map_values(
                |l: FilterLabel| l@,
            ).push(inc[k as int]));
            assert(inc.take(k + 1) =~= inc.take(k as int).push(inc[k as int]));
            k = k + 1;
        }
        let mut j: usize = 0;
        while j < self.excluded.len()
            invariant
                j <= self@.excluded.len(),
                inc.len() == self@.included.len(),
                exc == self@.excluded.map_values(
                    |t: Seq<char>| FilterLabelView { tag: t, mode: FilterMode::Exclude },
                ),
                labels@.map_values(|l: FilterLabel| l@) == inc + exc.take(j as int),
            decreases self@.excluded.len() - j,
        {
            let ghost old_l = labels@;
            let l = FilterLabel { tag: self.excluded[j].clone(), mode: FilterMode::Exclude };
            labels.push(l);
            assert(labels@.map_values(|l: FilterLabel| l@) =~= old_l.map_values(
                |l: FilterLabel| l@,
            ).push(exc[j as int]));
            assert(inc + exc.take(j + 1) =~= (inc + exc.take(j as int)).push(exc[j as int]));
            j = j + 1;
        }
        assert(inc.take(inc.len() as int) =~= inc);
        assert(exc.take(exc.len() as int) =~= exc);
        labels
    }
}

/// The content of a preset.
pub struct FilterPresetView {
    pub name: Seq<char>,
    pub state: FilterStateView,
}

/// A named filter state.
#[derive(Debug)]
pub struct FilterPreset {
    pub name: String,
    pub state: FilterState,
}

impl View for FilterPreset {
    type V = FilterPresetView;

    open spec fn view(&self) -> FilterPresetView {
        FilterPresetView { name: self.name@, state: self.state@ }
    }
}

impl Clone for FilterPreset {
    fn clone(&self) -> (r: Self)
        ensures
            r@ == self@,
    {
        FilterPreset { name: self.name.clone(), state: self.state.clone() }
    }
}

/// A preset's key: its name.
pub open spec fn preset_key() -> spec_fn(FilterPresetView) -> Seq<char> {
    |p: FilterPresetView| p.name
}

/// The stored presets.
#[derive(Debug)]
pub struct FilterPresets {
    presets: Vec<FilterPreset>,
}

impl View for FilterPresets {
    type V = Seq<FilterPresetView>;

    closed spec fn view(&self) -> Seq<FilterPresetView> {
        self.presets@.map_values(|p: FilterPreset| p@)
    }
}

/// The presets after seeding one: unchanged if a preset has that name,
/// else with the new preset stored.
pub open spec fn seeded(s: Seq<FilterPresetView>, name: Seq<char>, state: FilterStateView) -> Seq<FilterPresetView> {
    if first_keyed(s, preset_key(), name) < 0 {
        drop_keyed(s, preset_key(), name).push(FilterPresetView { name, state })
    } else {
        s
    }
}

impl Default for FilterPresets {
    fn default() -> (r: Self)
        ensures
            r@ == Seq::<FilterPresetView>::empty(),
    {
        let r = FilterPresets { presets: Vec::new() };
        assert(r@ =~= Seq::<FilterPresetView>::empty());
        r
    }
}

impl FilterPresets {
    /// Removes the presets named `name`.
    fn drop_named(&mut self, name: &str)
        ensures
            final(self)@ == drop_keyed(old(self)@, preset_key(), name@),
    {
        let ghost s = self@;
        let key = name.to_owned();
        let mut v: Vec<FilterPreset> = Vec::new();
        let mut k: usize = 0;
        while k < self.presets.len()
            invariant
                self@ == s,
                key@ == name@,
                k <= s.len(),
                v@.map_values(|p: FilterPreset| p@) == drop_keyed(s.take(k as int), preset_key(), name@),
            decreases s.len() - k,
        {
            assert(s.take(k + 1).drop_last() =~= s.take(k as int));
            assert(s.take(k + 1).last() == self.presets@[k as int]@);
            if self.presets[k].name != key {
                let ghost old_v = v@;
                v.push(self.presets[k].clone());
                assert(v@.map_values(|p: FilterPreset| p@) =~= old_v.map_values(
                    |p: FilterPreset| p@,
                ).push(self.presets@[k as int]@));
            }
            k = k + 1;
        }
        assert(s.take(k as int) =~= s);
        self.presets = v;
    }

    /// Stores a preset, replacing the presets with the same name.
    pub fn add(&mut self, name: &str, state: FilterState)
        ensures
            final(self)@ == drop_keyed(old(self)@, preset_key(), name@).push(
                FilterPresetView { name: name@, state: state@ },
            ),
    {
        self.drop_named(name);
        let ghost s = self@;
        self.presets.push(FilterPreset { name: name.to_owned(), state });
        assert(self@ =~= s.push(FilterPresetView { name: name@, state: state@ }));
    }

    /// Stores a preset unless one with this name exists; whether it was stored.
    pub fn add_if_absent(&mut self, name: &str, state: FilterState) -> (r: bool)
        ensures
            r == (first_keyed(old(self)@, preset_key(), name@) < 0),
            final(self)@ == seeded(old(self)@, name@, state@),
    {
        if self.get(name).is_some() {
            return false;
        }
        self.add(name, state);
        true
    }

    /// Removes the presets with this name.
    pub fn remove(&mut self, name: &str)
        ensures
            final(self)@ == drop_keyed(old(self)@, preset_key(), name@),
    {
        self.drop_named(name);
    }

    /// The first preset with this name.
    pub fn get(&self, name: &str) -> (r: Option<&FilterPreset>)
        ensures
            ({
                let i = first_keyed(self@, preset_key(), name@);
                match r {
                    Some(p) => i >= 0 && p@ == self@[i],
                    None => i == -1,
                }
            }),
    {
        let key = name.to_owned();
        let mut k: usize = 0;
        while k < self.presets.len()
            invariant
                k <= self@.len(),
                key@ == name@,
                forall|j: int| 0 <= j < k ==> preset_key()(self@[j]) != name@,
            decreases self@.len() - k,
        {
            if self.presets[k].name == key {
                proof {
                    lemma_first_keyed(self@, preset_key(), name@, k as int);
                }
                return Some(&self.presets[k]);
            }
            k = k + 1;
        }
        proof {
            lemma_first_keyed(self@, preset_key(), name@, k as int);
        }
        None
    }

    /// All presets, in order.
    pub fn list(&self) -> (r: &[FilterPreset])
        ensures
            r@.map_values(|p: FilterPreset| p@) == self@,
    {
        self.presets.as_slice()
    }
}

/// The content of a magic word.
pub struct MagicWordView {
    pub keyword: Seq<char>,
    pub preset_name: Seq<char>,
}

/// A keyword that loads a preset.
#[derive(Debug)]
pub struct MagicWord {
    pub keyword: String,
    pub preset_name: String,
}

impl View for MagicWord {
    type V = MagicWordView;

    open spec fn view(&self) -> MagicWordView {
        MagicWordView { keyword: self.keyword@, preset_name: self.preset_name@ }
    }
}

impl Clone for MagicWord {
    fn clone(&self) -> (r: Self)
        ensures
            r == *self,
    {
        MagicWord { keyword: self.keyword.clone(), preset_name: self.preset_name.clone() }
    }
}

/// A magic word's key: its keyword.
pub open spec fn word_key() -> spec_fn(MagicWordView) -> Seq<char> {
    |w: MagicWordView| w.keyword
}

/// The first word, from index `i` on, that the lower-cased query starts with
/// (followed by a space: `true`) or equals (`false`).
pub open spec fn magic_match_from(words: Seq<MagicWordView>, ql: Seq<char>, i: int) -> Option<
    (int, bool),
>
    decreases words.len() - i,
{
    if i < 0 || i >= words.len() {
        None
    } else if has_prefix(ql, words[i].keyword.push(' ')) {
        Some((i, true))
    } else if ql == words[i].keyword {
        Some((i, false))
    } else {
        magic_match_from(words, ql, i + 1)
    }
}

/// Where the remainder of a query starts, in bytes, after the keyword of
/// word `i` and a space.
pub open spec fn magic_cut(words: Seq<MagicWordView>, i: int) -> int {
    (encode_utf8(words[i].keyword).len() + 1) as int
}

/// What `check` needs of a query: when the matched keyword is followed by a
/// space, the remainder starts on a character boundary of the query.
pub open spec fn magic_check_ok(words: Seq<MagicWordView>, query: &str) -> bool {
    match magic_match_from(words, lowercase(query@), 0) {
        Some((i, true)) => magic_cut(words, i) <= usize::MAX && is_char_boundary(
            query.spec_bytes(),
            magic_cut(words, i),
        ),
        _ => true,
    }
}

/// Magic words: keyword + Space at the start of a query loads a preset.
#[derive(Debug)]
pub struct MagicWords {
    words: Vec<MagicWord>,
}

impl View for MagicWords {
    type V = Seq<MagicWordView>;

    closed spec fn view(&self) -> Seq<MagicWordView> {
        self.words@.map_values(|w: MagicWord| w@)
    }
}

impl Default for MagicWords {
    fn default() -> (r: Self)
        ensures
            r@ == Seq::<MagicWordView>::empty(),
    {
        let r = MagicWords { words: Vec::new() };
        assert(r@ =~= Seq::<MagicWordView>::empty());
        r
    }
}

impl MagicWords {
    /// Removes the words with keyword `kw`.
    fn drop_keyword(&mut self, kw: &String)
        ensures
            final(self)@ == drop_keyed(old(self)@, word_key(), kw@),
    {
        let ghost s = self@;
        let mut v: Vec<MagicWord> = Vec::new();
        let mut k: usize = 0;
        while k < self.words.len()
            invariant
                self@ == s,
                k <= s.len(),
                v@.map_values(|w: MagicWord| w@) == drop_keyed(s.take(k as int), word_key(), kw@),
            decreases s.len() - k,
        {
            assert(s.take(k + 1).drop_last() =~= s.take(k as int));
            assert(s.take(k + 1).last() == self.words@[k as int]@);
            if self.words[k].keyword != *kw {
                let ghost old_v = v@;
                v.push(self.words[k].clone());
                assert(v@.map_values(|w: MagicWord| w@) =~= old_v.map_values(|w: MagicWord| w@).push(
                    self.words@[k as int]@,
                ));
            }
            k = k + 1;
        }
        assert(s.take(k as int) =~= s);
        self.words = v;
    }

    /// Adds a magic word (lower-cased), replacing any word with that keyword.
    pub fn add(&mut self, keyword: &str, preset_name: &str)
        ensures
            final(self)@ == drop_keyed(old(self)@, word_key(), lowercase(keyword@)).push(
                MagicWordView { keyword: lowercase(keyword@), preset_name: preset_name@ },
            ),
    {
        let kw = to_lowercase(keyword);
        self.drop_keyword(&kw);
        let ghost s = self@;
        self.words.push(MagicWord { keyword: kw, preset_name: preset_name.to_owned() });
        assert(self@ =~= s.push(
            MagicWordView { keyword: lowercase(keyword@), preset_name: preset_name@ },
        ));
    }

    /// Removes the magic word with this keyword (compared lower-cased).
    pub fn remove(&mut self, keyword: &str)
        ensures
            final(self)@ == drop_keyed(old(self)@, word_key(), lowercase(keyword@)),
    {
        let kw = to_lowercase(keyword);
        self.drop_keyword(&kw);
    }

    /// Checks whether the query starts with a magic word followed by a space
    /// (or is exactly a magic word), comparing lower-cased. Returns the
    /// preset name and the rest of the query after the word and the space.
    pub fn check<'a>(&'a self, query: &'a str) -> (r: Option<(&'a str, &'a str)>)
        requires
            magic_check_ok(self@, query),
        ensures
            match magic_match_from(self@, lowercase(query@), 0) {
                None => r is None,
                Some((i, true)) => r matches Some((p, rest)) && p@ == self@[i].preset_name
                    && rest.spec_bytes() == query.spec_bytes().skip(magic_cut(self@, i)),
                Some((i, false)) => r matches Some((p, rest)) && p@ == self@[i].preset_name
                    && rest@.len() == 0,
            },
    {
        let ql = to_lowercase(query);
        let qv = chars_of(ql.as_str());
        let mut k: usize = 0;
        while k < self.words.len()
            invariant
                k <= self@.len(),
                qv@ == lowercase(query@),
                magic_check_ok(self@, query),
                magic_match_from(self@, qv@, 0) == magic_match_from(self@, qv@, k as int),
            decreases self@.len() - k,
        {
            let w = &self.words[k];
            let mut prefix = chars_of(w.keyword.as_str());
            prefix.push(' ');
            assert(self@[k as int] == w@);
            if starts_with(qv.as_slice(), prefix.as_slice()) {
                assert(magic_match_from(self@, qv@, k as int) == Some((k as int, true)));
                let kws = w.keyword.as_str();
                assert(kws.spec_bytes() == encode_utf8(w.keyword@));
                let n = kws.len() + 1;
                let (_, rest) = query.split_at(n);
                return Some((w.preset_name.as_str(), rest));
            }
            let kv = chars_of(w.keyword.as_str());
            if chars_eq(qv.as_slice(), kv.as_slice()) {
                proof {
                    reveal_strlit("");
                }
                return Some((w.preset_name.as_str(), ""));
            }
            k = k + 1;
        }
        None
    }

    /// Whether [`MagicWords::check`] can take this query: where the matched
    /// keyword is followed by a space, the rest starts on a character boundary.
    pub fn can_check(&self, query: &str) -> (r: bool)
        ensures
            r == magic_check_ok(self@, query),
    {
        let ql = to_lowercase(query);
        let qv = chars_of(ql.as_str());
        let mut k: usize = 0;
        while k < self.words.len()
            invariant
                k <= self@.len(),
                qv@ == lowercase(query@),
                magic_match_from(self@, qv@, 0) == magic_match_from(self@, qv@, k as int),
            decreases self@.len() - k,
        {
            let w = &self.words[k];
            let mut prefix = chars_of(w.keyword.as_str());
            prefix.push(' ');
            assert(self@[k as int] == w@);
            if starts_with(qv.as_slice(), prefix.as_slice()) {
                let n = w.keyword.as_str().as_bytes().len();
                if n == usize::MAX {
                    return false;
                }
                return query.is_char_boundary(n + 1);
            }
            let kv = chars_of(w.keyword.as_str());
            if chars_eq(qv.as_slice(), kv.as_slice()) {
                return true;
            }
            k = k + 1;
        }
        true
    }

    /// [`MagicWords::check`] where it can take the query; `None` where it cannot.
    pub fn try_check<'a>(&'a self, query: &'a str) -> (r: Option<Option<(&'a str, &'a str)>>)
        ensures
            r is Some <==> magic_check_ok(self@, query),
            match r {
                Some(c) => match magic_match_from(self@, lowercase(query@), 0) {
                    None => c is None,
                    Some((i, true)) => c matches Some((p, rest)) && p@ == self@[i].preset_name
                        && rest.spec_bytes() == query.spec_bytes().skip(magic_cut(self@, i)),
                    Some((i, false)) => c matches Some((p, rest)) && p@ == self@[i].preset_name
                        && rest@.len() == 0,
                },
                None => true,
            },
    {
        if self.can_check(query) {
            Some(self.check(query))
        } else {
            None
        }
    }

    /// All magic words, in order.
    pub fn list(&self) -> (r: &[MagicWord])
        ensures
            r@.map_values(|w: MagicWord| w@) == self@,
    {
        self.words.as_slice()
    }
}


/// Path of the filter presets file, given the values of `XDG_DATA_HOME` and
/// `HOME` (`None` where unset).
pub fn default_presets_path(xdg_data_home: Option<&str>, home: Option<&str>) -> (r: String)
    ensures
        r@ == crate::text::data_file(
            crate::text::opt_str_view(xdg_data_home),
            crate::text::opt_str_view(home),
            "filter-presets.json"@,
        ),
{
    crate::text::data_file_path(xdg_data_home, home, "filter-presets.json")
}

} // verus!
