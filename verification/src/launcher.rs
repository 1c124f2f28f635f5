//! The launcher window's state and what each user input does to it.
//!
//! The application draws the window and runs the loop: it hands each input
//! to a [`LauncherSession`], which updates its state and answers with the
//! effect the application performs (activate an item, toggle a favorite,
//! close the window, ...).

use vstd::prelude::*;
use vstd::string::*;
use vstd::utf8::encode_utf8;

use crate::filter::{
    empty_filter, toggled_exclude, toggled_include, without_tag, FilterState, FilterStateView,
};
use crate::provider::{modifier_of, ActionModifier, Item, ItemActionView};
use crate::tags::tag_leaf;
use crate::text::{chars_of, str_views};
use crate::ui::{decimal, decimal_string, FilterAction, FilterActionView, LauncherKey, LauncherMode,
    SidebarAction, SidebarActionView,
};

verus! {

/// Whether the query searches items or tags.
#[derive(Debug, Clone, Copy, PartialEq, Eq, Structural)]
pub enum SearchMode {
    Items,
    Filters,
}

/// The content of a launcher session.
pub struct SessionView {
    pub query: Seq<char>,
    pub selected: usize,
    pub mode: LauncherMode,
    pub filter: FilterStateView,
    pub search_mode: SearchMode,
    pub show_quick_tag: bool,
    pub show_notes_editor: bool,
    pub preset_counter: u32,
}

/// The state of the launcher window.
#[derive(Debug)]
pub struct LauncherSession {
    /// The search input.
    pub query: String,
    /// Position of the selected result.
    pub selected: usize,
    pub mode: LauncherMode,
    /// The active tag filter.
    pub filter: FilterState,
    pub search_mode: SearchMode,
    pub show_quick_tag: bool,
    pub show_notes_editor: bool,
    /// Presets saved so far in this session, for naming the next one.
    pub preset_counter: u32,
}

impl View for LauncherSession {
    type V = SessionView;

    open spec fn view(&self) -> SessionView {
        SessionView {
            query: self.query@,
            selected: self.selected,
            mode: self.mode,
            filter: self.filter@,
            search_mode: self.search_mode,
            show_quick_tag: self.show_quick_tag,
            show_notes_editor: self.show_notes_editor,
            preset_counter: self.preset_counter,
        }
    }
}

/// What the application is asked to do after an input.
#[derive(Debug)]
pub enum LauncherEffect {
    /// Nothing.
    Nothing,
    /// Run an action of a result; close the window if the provider asks to,
    /// unless the action keeps it open.
    Activate { index: usize, action: String, keep_open: bool },
    /// Toggle whether a result is a favorite.
    ToggleFavorite(usize),
    /// Toggle whether a result is hidden.
    ToggleHidden(usize),
    /// Export all user data.
    ExportAll,
    /// Save a filter as a named preset.
    SavePreset { name: String, filter: FilterState },
    /// Set the rating of a result to `rating`, or clear it if it has that rating.
    ToggleRating { index: usize, rating: u8 },
    /// Select a random result (see [`LauncherSession::select_random`]).
    RandomSelect,
    /// Close the window.
    Close,
}

/// The content of an effect.
pub enum EffectView {
    Nothing,
    Activate { index: usize, action: Seq<char>, keep_open: bool },
    ToggleFavorite(usize),
    ToggleHidden(usize),
    ExportAll,
    SavePreset { name: Seq<char>, filter: FilterStateView },
    ToggleRating { index: usize, rating: u8 },
    RandomSelect,
    Close,
}

impl View for LauncherEffect {
    type V = EffectView;

    open spec fn view(&self) -> EffectView {
        match self {
            LauncherEffect::Nothing => EffectView::Nothing,
            LauncherEffect::Activate { index, action, keep_open } => EffectView::Activate {
                index: *index,
                action: action@,
                keep_open: *keep_open,
            },
            LauncherEffect::ToggleFavorite(i) => EffectView::ToggleFavorite(*i),
            LauncherEffect::ToggleHidden(i) => EffectView::ToggleHidden(*i),
            LauncherEffect::ExportAll => EffectView::ExportAll,
            LauncherEffect::SavePreset { name, filter } => EffectView::SavePreset {
                name: name@,
                filter: filter@,
            },
            LauncherEffect::ToggleRating { index, rating } => EffectView::ToggleRating {
                index: *index,
                rating: *rating,
            },
            LauncherEffect::RandomSelect => EffectView::RandomSelect,
            LauncherEffect::Close => EffectView::Close,
        }
    }
}

/// The rating a rating key sets: the digit, or 0 if the item has it already.
pub open spec fn toggled_rating_spec(current: u8, digit: u8) -> u8 {
    if current == digit {
        0
    } else {
        digit
    }
}

/// The rating a rating key sets: the digit, or 0 if the item has it already.
pub fn toggled_rating(current: u8, digit: u8) -> (r: u8)
    ensures
        r == toggled_rating_spec(current, digit),
{
    if current == digit {
        0
    } else {
        digit
    }
}

/// Position of the first action bound to `m`, or -1.
pub open spec fn action_with_modifier(actions: Seq<ItemActionView>, m: ActionModifier) -> int
    decreases actions.len(),
{
    if actions.len() == 0 {
        -1
    } else {
        let r = action_with_modifier(actions.drop_last(), m);
        if r >= 0 {
            r
        } else if actions.last().modifier == m {
            actions.len() - 1
        } else {
            -1
        }
    }
}

pub proof fn lemma_action_with_modifier(actions: Seq<ItemActionView>, m: ActionModifier)
    ensures
        -1 <= action_with_modifier(actions, m) < actions.len(),
        action_with_modifier(actions, m) >= 0 ==> actions[action_with_modifier(actions, m)].modifier == m,
    decreases actions.len(),
{
    if actions.len() > 0 {
        lemma_action_with_modifier(actions.drop_last(), m);
    }
}

/// The action Enter runs with the given modifier keys: the first action
/// bound to them, else the first action, else `activate`; and whether it
/// keeps the window open.
pub open spec fn enter_action(item: Item, ctrl: bool, shift: bool, alt: bool) -> (Seq<char>, bool) {
    let acts = item@.actions;
    let i = action_with_modifier(acts, modifier_of(ctrl, shift, alt));
    if i >= 0 {
        (acts[i].name, acts[i].keep_open)
    } else if acts.len() > 0 {
        (acts[0].name, false)
    } else {
        ("activate"@, false)
    }
}

/// The value of a decimal digit character.
pub open spec fn digit_value(c: char) -> Option<int> {
    if '0' <= c && c <= '9' {
        Some((c as int) - ('0' as int))
    } else {
        None
    }
}

/// The digit a key's text starts with, if it starts with one.
pub open spec fn key_digit(text: Seq<char>) -> Option<int> {
    if text.len() > 0 {
        digit_value(text[0])
    } else {
        None
    }
}

/// The session after applying a selected result's first tag as filter, in
/// tag search mode.
pub open spec fn applied_tag(s: SessionView, tag: Seq<char>) -> SessionView {
    SessionView {
        filter: toggled_include(s.filter, tag),
        query: Seq::empty(),
        selected: 0,
        search_mode: SearchMode::Items,
        ..s
    }
}

/// The count after `c`, wrapping to 0 after the largest count.
pub open spec fn next_counter(c: u32) -> u32 {
    if c < u32::MAX {
        (c + 1) as u32
    } else {
        0
    }
}

/// The name of the `n`th preset saved in a session: `Preset <n>`.
pub open spec fn preset_name(n: u32) -> Seq<char> {
    "Preset "@ + decimal(n as nat)
}

/// The session after a key with no modifiers that needs no result data
/// (arrows, Tab, Escape, Home, End, page keys), given `len` results.
pub open spec fn nav_key(s: SessionView, key: LauncherKey, len: nat) -> (SessionView, EffectView) {
    match key {
        LauncherKey::ArrowDown => if len > 0 {
            (SessionView { selected: ((s.selected + 1) % (len as int)) as usize, ..s }, EffectView::Nothing)
        } else {
            (s, EffectView::Nothing)
        },
        LauncherKey::ArrowUp => if len > 0 {
            (
                SessionView {
                    selected: if s.selected == 0 {
                        (len - 1) as usize
                    } else {
                        (s.selected - 1) as usize
                    },
                    ..s
                },
                EffectView::Nothing,
            )
        } else {
            (s, EffectView::Nothing)
        },
        LauncherKey::Tab => (
            SessionView {
                search_mode: if s.search_mode == SearchMode::Items {
                    SearchMode::Filters
                } else {
                    SearchMode::Items
                },
                selected: 0,
                ..s
            },
            EffectView::Nothing,
        ),
        LauncherKey::Escape => if s.query.len() > 0 {
            (SessionView { query: Seq::empty(), selected: 0, ..s }, EffectView::Nothing)
        } else if s.search_mode == SearchMode::Filters {
            (SessionView { search_mode: SearchMode::Items, ..s }, EffectView::Nothing)
        } else if !(s.filter.included.len() == 0 && s.filter.excluded.len() == 0 && s.filter.provider is None) {
            (SessionView { filter: empty_filter(), selected: 0, ..s }, EffectView::Nothing)
        } else {
            (s, EffectView::Close)
        },
        LauncherKey::Home => (SessionView { selected: 0, ..s }, EffectView::Nothing),
        LauncherKey::End => if len > 0 {
            (SessionView { selected: (len - 1) as usize, ..s }, EffectView::Nothing)
        } else {
            (s, EffectView::Nothing)
        },
        LauncherKey::PageDown => if len > 0 {
            (
                SessionView {
                    selected: if s.selected + 10 < len - 1 {
                        (s.selected + 10) as usize
                    } else {
                        (len - 1) as usize
                    },
                    ..s
                },
                EffectView::Nothing,
            )
        } else {
            (s, EffectView::Nothing)
        },
        LauncherKey::PageUp => (
            SessionView {
                selected: if s.selected >= 10 {
                    (s.selected - 10) as usize
                } else {
                    0
                },
                ..s
            },
            EffectView::Nothing,
        ),
        _ => (s, EffectView::Nothing),
    }
}

/// The session and effect after a text key pressed with Ctrl (and maybe
/// Shift): Ctrl+F favorite, Ctrl+T quick tag, Ctrl+N notes, Ctrl+E export,
/// Ctrl+L clear filters, Ctrl+R random result, Ctrl+H hide, Ctrl+S save the
/// filter as a preset, Ctrl+Shift+1..5 rate, Ctrl+1..9 activate by position.
pub open spec fn ctrl_key(s: SessionView, text: Seq<char>, shift: bool, len: nat) -> (SessionView, EffectView) {
    let has_sel = s.selected < len;
    if text == "f"@ {
        (s, if has_sel { EffectView::ToggleFavorite(s.selected) } else { EffectView::Nothing })
    } else if text == "t"@ {
        (SessionView { show_quick_tag: if has_sel { true } else { s.show_quick_tag }, ..s }, EffectView::Nothing)
    } else if text == "n"@ {
        (SessionView { show_notes_editor: if has_sel { true } else { s.show_notes_editor }, ..s }, EffectView::Nothing)
    } else if text == "e"@ {
        (s, EffectView::ExportAll)
    } else if text == "l"@ {
        (SessionView { filter: empty_filter(), selected: 0, ..s }, EffectView::Nothing)
    } else if text == "r"@ {
        (s, if len > 0 { EffectView::RandomSelect } else { EffectView::Nothing })
    } else if text == "h"@ {
        (s, if has_sel { EffectView::ToggleHidden(s.selected) } else { EffectView::Nothing })
    } else if !shift && text == "s"@ {
        if !(s.filter.included.len() == 0 && s.filter.excluded.len() == 0 && s.filter.provider is None) {
            let c = next_counter(s.preset_counter);
            (
                SessionView { preset_counter: c, ..s },
                EffectView::SavePreset { name: preset_name(c), filter: s.filter },
            )
        } else {
            (s, EffectView::Nothing)
        }
    } else if shift && encode_utf8(text).len() == 1 {
        match key_digit(text) {
            Some(d) => if 1 <= d <= 5 && has_sel {
                (s, EffectView::ToggleRating { index: s.selected, rating: d as u8 })
            } else {
                (s, EffectView::Nothing)
            },
            None => (s, EffectView::Nothing),
        }
    } else if !shift && encode_utf8(text).len() == 1 {
        match key_digit(text) {
            Some(d) => if 1 <= d <= 9 && d - 1 < len {
                (s, EffectView::Activate { index: (d - 1) as usize, action: "activate"@, keep_open: false })
            } else {
                (s, EffectView::Nothing)
            },
            None => (s, EffectView::Nothing),
        }
    } else {
        (s, EffectView::Nothing)
    }
}

/// The session and effect after a key press, given the current results.
pub open spec fn key_outcome(
    s: SessionView,
    key: LauncherKey,
    ctrl: bool,
    shift: bool,
    alt: bool,
    results: Seq<Item>,
) -> (SessionView, EffectView) {
    let len = results.len();
    match key {
        LauncherKey::Enter => if s.selected < len {
            let item = results[s.selected as int];
            if s.search_mode == SearchMode::Filters && item@.tags.len() > 0 {
                (applied_tag(s, item@.tags[0]), EffectView::Nothing)
            } else {
                let (name, keep) = enter_action(item, ctrl, shift, alt);
                (s, EffectView::Activate { index: s.selected, action: name, keep_open: keep })
            }
        } else {
            (s, EffectView::Nothing)
        },
        LauncherKey::Character(text) => if ctrl {
            ctrl_key(s, text@, shift, len)
        } else {
            (s, EffectView::Nothing)
        },
        _ => nav_key(s, key, len),
    }
}

/// The session after the results' click on `index`.
pub open spec fn click_outcome(s: SessionView, index: usize, results: Seq<Item>) -> (SessionView, EffectView) {
    if index < results.len() {
        let item = results[index as int];
        if s.search_mode == SearchMode::Filters && item@.tags.len() > 0 {
            (applied_tag(s, item@.tags[0]), EffectView::Nothing)
        } else {
            (s, EffectView::Activate { index: index, action: "activate"@, keep_open: false })
        }
    } else {
        (s, EffectView::Nothing)
    }
}

/// The filter after a sidebar action.
pub open spec fn sidebar_filter(f: FilterStateView, a: SidebarActionView) -> FilterStateView {
    match a {
        SidebarActionView::SelectAll => empty_filter(),
        SidebarActionView::Select(t) => FilterStateView { included: seq![t], excluded: Seq::empty(), ..f },
        SidebarActionView::AddInclude(t) => toggled_include(f, t),
        SidebarActionView::AddExclude(t) => toggled_exclude(f, t),
        SidebarActionView::Remove(t) => without_tag(f, t),
    }
}

/// The filter after a filter chip action.
pub open spec fn chip_filter(f: FilterStateView, a: FilterActionView) -> FilterStateView {
    match a {
        FilterActionView::Clear => empty_filter(),
        FilterActionView::ToggleInclude(t) => toggled_include(f, t),
        FilterActionView::ToggleExclude(t) => toggled_exclude(f, t),
        FilterActionView::Remove(t) => without_tag(f, t),
    }
}

/// The label of an active filter: `+leaf` for each included tag, then
/// `-leaf` for each excluded tag, separated by spaces.
pub open spec fn filter_label_spec(f: FilterStateView) -> Seq<char> {
    join_words(
        f.included.map_values(|t: Seq<char>| "+"@ + tag_leaf(t)) + f.excluded.map_values(
            |t: Seq<char>| "-"@ + tag_leaf(t),
        ),
    )
}

/// Words joined with single spaces.
pub open spec fn join_words(words: Seq<Seq<char>>) -> Seq<char>
    decreases words.len(),
{
    if words.len() == 0 {
        Seq::empty()
    } else if words.len() == 1 {
        words[0]
    } else {
        join_words(words.drop_last()) + " "@ + words.last()
    }
}

/// What the result list shows besides results.
#[derive(Debug, Clone, Copy, PartialEq, Eq, Structural)]
pub enum ListNotice {
    /// "No results found": a query or filter matched nothing.
    NoResults,
    /// "Start typing to search": no query, no filter, no results.
    Idle,
    /// A "Recent & Favorites" header above results shown without a query.
    RecentHeader,
    /// Nothing besides the results.
    Nothing,
}

impl LauncherSession {
    /// A fresh session: empty query and filter, first result selected, full
    /// window, item search, no overlay.
    pub fn new() -> (r: Self)
        ensures
            r@.query == Seq::<char>::empty(),
            r@.selected == 0,
            r@.mode == LauncherMode::Full,
            r@.filter == empty_filter(),
            r@.search_mode == SearchMode::Items,
            !r@.show_quick_tag,
            !r@.show_notes_editor,
            r@.preset_counter == 0,
    {
        LauncherSession {
            query: String::new(),
            selected: 0,
            mode: LauncherMode::Full,
            filter: FilterState::new(),
            search_mode: SearchMode::Items,
            show_quick_tag: false,
            show_notes_editor: false,
            preset_counter: 0,
        }
    }

    /// Keeps the selection within `count` results: the last one if it is
    /// past the end, the first if there are none.
    pub fn clamp_selection(&mut self, count: usize)
        ensures
            final(self)@ == (SessionView {
                selected: if count == 0 {
                    0
                } else if old(self).selected >= count {
                    (count - 1) as usize
                } else {
                    old(self).selected
                },
                ..old(self)@
            }),
    {
        if self.selected >= count && count > 0 {
            self.selected = count - 1;
        }
        if count == 0 {
            self.selected = 0;
        }
    }

    /// The search input changed: a new query, the first result selected.
    pub fn on_input(&mut self, value: String)
        ensures
            final(self)@ == (SessionView { query: value@, selected: 0, ..old(self)@ }),
    {
        self.query = value;
        self.selected = 0;
    }

    /// Applies the first tag of a result as filter and returns to item search.
    fn apply_tag(&mut self, tag: &str)
        ensures
            final(self)@ == applied_tag(old(self)@, tag@),
    {
        self.filter.toggle_include(tag);
        self.query = String::new();
        self.selected = 0;
        self.search_mode = SearchMode::Items;
    }

    /// A key press, given the current results.
    pub fn on_key(&mut self, key: &LauncherKey, ctrl: bool, shift: bool, alt: bool, results: &[Item]) -> (r: LauncherEffect)
        ensures
            (final(self)@, r@) == key_outcome(old(self)@, *key, ctrl, shift, alt, results@),
    {
        let len = results.len();
        match key {
            LauncherKey::Enter => {
                if self.selected < len {
                    let item = &results[self.selected];
                    if self.search_mode == SearchMode::Filters && item.tags.len() > 0 {
                        let t = item.tags.tags()[0].to_string();
                        self.apply_tag(t.as_str());
                        return LauncherEffect::Nothing;
                    }
                    let m = ActionModifier::from_modifiers(ctrl, shift, alt);
                    proof {
                        lemma_action_with_modifier(item@.actions, m);
                    }
                    let (action, keep_open) = Self::pick_action(item, m);
                    LauncherEffect::Activate { index: self.selected, action, keep_open }
                } else {
                    LauncherEffect::Nothing
                }
            },
            LauncherKey::Character(text) => {
                if ctrl {
                    self.on_ctrl_key(text.as_str(), shift, len)
                } else {
                    LauncherEffect::Nothing
                }
            },
            _ => self.on_nav_key(key, len),
        }
    }

    /// The action Enter runs for `item` with modifier `m`.
    fn pick_action(item: &Item, m: ActionModifier) -> (r: (String, bool))
        ensures
            ({
                let acts = item@.actions;
                let i = action_with_modifier(acts, m);
                (r.0@, r.1) == if i >= 0 {
                    (acts[i].name, acts[i].keep_open)
                } else if acts.len() > 0 {
                    (acts[0].name, false)
                } else {
                    ("activate"@, false)
                }
            }),
    {
        let ghost acts = item@.actions;
        let mut i: usize = 0;
        while i < item.actions.len()
            invariant
                acts == item@.actions,
                i <= acts.len(),
                action_with_modifier(acts.take(i as int), m) == -1,
            decreases acts.len() - i,
        {
            assert(acts.take(i + 1).drop_last() =~= acts.take(i as int));
            if item.actions[i].modifier == m {
                proof {
                    lemma_action_with_modifier_prefix(acts, m, i as int);
                }
                return (item.actions[i].name.clone(), item.actions[i].keep_open);
            }
            i = i + 1;
        }
        assert(acts.take(i as int) =~= acts);
        if item.actions.len() > 0 {
            (item.actions[0].name.clone(), false)
        } else {
            ("activate".to_owned(), false)
        }
    }

    /// A key other than Enter and text keys.
    fn on_nav_key(&mut self, key: &LauncherKey, len: usize) -> (r: LauncherEffect)
        requires
            !(*key is Enter),
            !(*key is Character),
        ensures
            (final(self)@, r@) == nav_key(old(self)@, *key, len as nat),
    {
        match key {
            LauncherKey::ArrowDown => {
                if len > 0 {
                    self.selected = ((self.selected as u128 + 1) % (len as u128)) as usize;
                }
            },
            LauncherKey::ArrowUp => {
                if len > 0 {
                    self.selected = if self.selected == 0 {
                        len - 1
                    } else {
                        self.selected - 1
                    };
                }
            },
            LauncherKey::Tab => {
                self.search_mode = match self.search_mode {
                    SearchMode::Items => SearchMode::Filters,
                    SearchMode::Filters => SearchMode::Items,
                };
                self.selected = 0;
            },
            LauncherKey::Escape => {
                if !self.query.as_str().is_empty() {
                    self.query = String::new();
                    self.selected = 0;
                } else if self.search_mode == SearchMode::Filters {
                    self.search_mode = SearchMode::Items;
                } else if !self.filter.is_empty() {
                    self.filter.clear();
                    self.selected = 0;
                } else {
                    return LauncherEffect::Close;
                }
            },
            LauncherKey::Home => {
                self.selected = 0;
            },
            LauncherKey::End => {
                if len > 0 {
                    self.selected = len - 1;
                }
            },
            LauncherKey::PageDown => {
                if len > 0 {
                    let moved = self.selected.saturating_add(10);
                    self.selected = if moved < len - 1 {
                        moved
                    } else {
                        len - 1
                    };
                }
            },
            LauncherKey::PageUp => {
                self.selected = self.selected.saturating_sub(10);
            },
            _ => {},
        }
        LauncherEffect::Nothing
    }

    /// A text key pressed with Ctrl.
    fn on_ctrl_key(&mut self, text: &str, shift: bool, len: usize) -> (r: LauncherEffect)
        ensures
            (final(self)@, r@) == ctrl_key(old(self)@, text@, shift, len as nat),
    {
        proof {
            reveal_strlit("f");
            reveal_strlit("t");
            reveal_strlit("n");
            reveal_strlit("e");
            reveal_strlit("l");
            reveal_strlit("r");
            reveal_strlit("h");
            reveal_strlit("s");
        }
        let has_sel = self.selected < len;
        let t = text.to_owned();
        if t == "f".to_owned() {
            if has_sel {
                LauncherEffect::ToggleFavorite(self.selected)
            } else {
                LauncherEffect::Nothing
            }
        } else if t == "t".to_owned() {
            if has_sel {
                self.show_quick_tag = true;
            }
            LauncherEffect::Nothing
        } else if t == "n".to_owned() {
            if has_sel {
                self.show_notes_editor = true;
            }
            LauncherEffect::Nothing
        } else if t == "e".to_owned() {
            LauncherEffect::ExportAll
        } else if t == "l".to_owned() {
            self.filter.clear();
            self.selected = 0;
            LauncherEffect::Nothing
        } else if t == "r".to_owned() {
            if len > 0 {
                LauncherEffect::RandomSelect
            } else {
                LauncherEffect::Nothing
            }
        } else if t == "h".to_owned() {
            if has_sel {
                LauncherEffect::ToggleHidden(self.selected)
            } else {
                LauncherEffect::Nothing
            }
        } else if !shift && t == "s".to_owned() {
            if !self.filter.is_empty() {
                let c = if self.preset_counter < u32::MAX {
            self.preset_counter + 1
        } else {
            0
        };
                self.preset_counter = c;
                let mut name = "Preset ".to_owned();
                let num = decimal_string(c as u64);
                name.append(num.as_str());
                LauncherEffect::SavePreset { name, filter: self.filter.clone() }
            } else {
                LauncherEffect::Nothing
            }
        } else if text.as_bytes().len() == 1 {
            let cs = chars_of(text);
            let d: i64 = if cs.len() > 0 && '0' <= cs[0] && cs[0] <= '9' {
                (cs[0] as u32 as i64) - 48
            } else {
                -1
            };
            if shift {
                if 1 <= d && d <= 5 && has_sel {
                    LauncherEffect::ToggleRating { index: self.selected, rating: d as u8 }
                } else {
                    LauncherEffect::Nothing
                }
            } else {
                if 1 <= d && d <= 9 && ((d - 1) as usize) < len {
                    LauncherEffect::Activate { index: (d - 1) as usize, action: "activate".to_owned(), keep_open: false }
                } else {
                    LauncherEffect::Nothing
                }
            }
        } else {
            LauncherEffect::Nothing
        }
    }

    /// A click on the result at `index`.
    pub fn on_click(&mut self, index: usize, results: &[Item]) -> (r: LauncherEffect)
        ensures
            (final(self)@, r@) == click_outcome(old(self)@, index, results@),
    {
        if index < results.len() {
            let item = &results[index];
            if self.search_mode == SearchMode::Filters && item.tags.len() > 0 {
                let t = item.tags.tags()[0].to_string();
                self.apply_tag(t.as_str());
                return LauncherEffect::Nothing;
            }
            LauncherEffect::Activate { index, action: "activate".to_owned(), keep_open: false }
        } else {
            LauncherEffect::Nothing
        }
    }

    /// Selects the result a random number points at.
    pub fn select_random(&mut self, random: usize, len: usize)
        ensures
            final(self)@ == if len > 0 {
                SessionView { selected: (random % len) as usize, ..old(self)@ }
            } else {
                old(self)@
            },
    {
        if len > 0 {
            self.selected = random % len;
        }
    }

    /// Switches between the full window and the palette.
    pub fn toggle_mode(&mut self)
        ensures
            final(self)@ == (SessionView {
                mode: if old(self)@.mode == LauncherMode::Full {
                    LauncherMode::Palette
                } else {
                    LauncherMode::Full
                },
                ..old(self)@
            }),
    {
        self.mode = match self.mode {
            LauncherMode::Full => LauncherMode::Palette,
            LauncherMode::Palette => LauncherMode::Full,
        };
    }

    /// The filter label of the search bar was clicked: clears the filter.
    pub fn clear_filter(&mut self)
        ensures
            final(self)@ == (SessionView { filter: empty_filter(), selected: 0, ..old(self)@ }),
    {
        self.filter.clear();
        self.selected = 0;
    }

    /// A sidebar action.
    pub fn on_sidebar(&mut self, action: &SidebarAction)
        ensures
            final(self)@ == (SessionView {
                filter: sidebar_filter(old(self)@.filter, action@),
                selected: 0,
                ..old(self)@
            }),
    {
        match action {
            SidebarAction::SelectAll => self.filter.clear(),
            SidebarAction::Select(tag) => {
                self.filter.included = Vec::new();
                self.filter.excluded = Vec::new();
                self.filter.included.push(tag.clone());
                assert(self.filter@.included =~= seq![tag@]);
                assert(self.filter@.excluded =~= Seq::<Seq<char>>::empty());
            },
            SidebarAction::AddInclude(tag) => self.filter.toggle_include(tag.as_str()),
            SidebarAction::AddExclude(tag) => self.filter.toggle_exclude(tag.as_str()),
            SidebarAction::Remove(tag) => self.filter.remove_tag(tag.as_str()),
        }
        self.selected = 0;
    }

    /// A filter chip action.
    pub fn on_filter_chip(&mut self, action: &FilterAction)
        ensures
            final(self)@ == (SessionView {
                filter: chip_filter(old(self)@.filter, action@),
                selected: 0,
                ..old(self)@
            }),
    {
        match action {
            FilterAction::Clear => self.filter.clear(),
            FilterAction::ToggleInclude(tag) => self.filter.toggle_include(tag.as_str()),
            FilterAction::ToggleExclude(tag) => self.filter.toggle_exclude(tag.as_str()),
            FilterAction::Remove(tag) => self.filter.remove_tag(tag.as_str()),
        }
        self.selected = 0;
    }

    /// A preset was picked: its filter, if it was found, replaces the current one.
    pub fn load_preset(&mut self, found: Option<FilterState>)
        ensures
            final(self)@ == match found {
                Some(f) => SessionView { filter: f@, selected: 0, ..old(self)@ },
                None => old(self)@,
            },
    {
        match found {
            Some(f) => {
                self.filter = f;
                self.selected = 0;
            },
            None => {},
        }
    }

    /// The preset bar's save button: saves the filter as the next preset.
    pub fn save_preset(&mut self) -> (r: LauncherEffect)
        ensures
            ({
                let c = next_counter(old(self)@.preset_counter);
                &&& final(self)@ == (SessionView { preset_counter: c, ..old(self)@ })
                &&& r@ == (EffectView::SavePreset { name: preset_name(c), filter: old(self)@.filter })
            }),
    {
        let c = if self.preset_counter < u32::MAX {
            self.preset_counter + 1
        } else {
            0
        };
        self.preset_counter = c;
        let mut name = "Preset ".to_owned();
        let num = decimal_string(c as u64);
        name.append(num.as_str());
        LauncherEffect::SavePreset { name, filter: self.filter.clone() }
    }

    /// Which result the quick tag overlay is for: the selected one; the
    /// overlay closes when there is none.
    pub fn quick_tag_target(&mut self, len: usize) -> (r: Option<usize>)
        ensures
            old(self)@.show_quick_tag && old(self)@.selected < len ==> r == Some(old(self)@.selected)
                && final(self)@ == old(self)@,
            old(self)@.show_quick_tag && old(self)@.selected >= len ==> r is None && final(self)@
                == (SessionView { show_quick_tag: false, ..old(self)@ }),
            !old(self)@.show_quick_tag ==> r is None && final(self)@ == old(self)@,
    {
        if self.show_quick_tag {
            if self.selected < len {
                return Some(self.selected);
            }
            self.show_quick_tag = false;
        }
        None
    }

    /// Which result the notes editor is for: the selected one; the editor
    /// closes when there is none.
    pub fn notes_target(&mut self, len: usize) -> (r: Option<usize>)
        ensures
            old(self)@.show_notes_editor && old(self)@.selected < len ==> r == Some(old(self)@.selected)
                && final(self)@ == old(self)@,
            old(self)@.show_notes_editor && old(self)@.selected >= len ==> r is None && final(self)@
                == (SessionView { show_notes_editor: false, ..old(self)@ }),
            !old(self)@.show_notes_editor ==> r is None && final(self)@ == old(self)@,
    {
        if self.show_notes_editor {
            if self.selected < len {
                return Some(self.selected);
            }
            self.show_notes_editor = false;
        }
        None
    }

    /// The search mode's name: `Items` or `Tags`.
    pub fn mode_label(&self) -> (r: &'static str)
        ensures
            r@ == if self.search_mode == SearchMode::Items { "Items"@ } else { "Tags"@ },
    {
        match self.search_mode {
            SearchMode::Items => "Items",
            SearchMode::Filters => "Tags",
        }
    }

    /// What the result list shows besides the results.
    pub fn notice(&self, result_count: usize) -> (r: ListNotice)
        ensures
            ({
                let idle = self@.query.len() == 0 && self@.filter.included.len() == 0
                    && self@.filter.excluded.len() == 0 && self@.filter.provider is None;
                r == if result_count == 0 && !idle {
                    ListNotice::NoResults
                } else if result_count == 0 {
                    ListNotice::Idle
                } else if idle {
                    ListNotice::RecentHeader
                } else {
                    ListNotice::Nothing
                }
            }),
    {
        let idle = self.query.as_str().is_empty() && self.filter.is_empty();
        if result_count == 0 && !idle {
            ListNotice::NoResults
        } else if result_count == 0 {
            ListNotice::Idle
        } else if idle {
            ListNotice::RecentHeader
        } else {
            ListNotice::Nothing
        }
    }

    /// The search bar's label of the active filter.
    pub fn filter_label(&self) -> (r: String)
        ensures
            r@ == filter_label_spec(self@.filter),
    {
        let ghost words = self@.filter.included.map_values(|t: Seq<char>| "+"@ + tag_leaf(t))
            + self@.filter.excluded.map_values(|t: Seq<char>| "-"@ + tag_leaf(t));
        let mut out = String::new();
        let n_in = self.filter.included.len();
        let n_ex = self.filter.excluded.len();
        let mut i: usize = 0;
        assert(words.take(0) =~= Seq::<Seq<char>>::empty());
        proof {
            reveal_strlit("+");
            reveal_strlit("-");
        }
        while i < n_in
            invariant
                n_in == self@.filter.included.len(),
                n_ex == self@.filter.excluded.len(),
                words.len() == n_in + n_ex,
                words == self@.filter.included.map_values(|t: Seq<char>| "+"@ + tag_leaf(t))
                    + self@.filter.excluded.map_values(|t: Seq<char>| "-"@ + tag_leaf(t)),
                i <= n_in,
                out@ == join_words(words.take(i as int)),
            decreases n_in - i,
        {
            let leaf = crate::tags::path_leaf(self.filter.included[i].as_str());
            assert(words[i as int] == "+"@ + leaf@);
            assert(words.take(i + 1).drop_last() =~= words.take(i as int));
            if i > 0 {
                out.append(" ");
            }
            out.append("+");
            out.append(leaf);
            assert(out@ =~= join_words(words.take(i + 1)));
            i = i + 1;
        }
        let mut j: usize = 0;
        while j < n_ex
            invariant
                n_in == self@.filter.included.len(),
                n_ex == self@.filter.excluded.len(),
                words.len() == n_in + n_ex,
                words == self@.filter.included.map_values(|t: Seq<char>| "+"@ + tag_leaf(t))
                    + self@.filter.excluded.map_values(|t: Seq<char>| "-"@ + tag_leaf(t)),
                j <= n_ex,
                out@ == join_words(words.take(n_in + j)),
            decreases n_ex - j,
        {
            let leaf = crate::tags::path_leaf(self.filter.excluded[j].as_str());
            assert(words[n_in + j] == "-"@ + leaf@);
            assert(words.take(n_in + j + 1).drop_last() =~= words.take(n_in + j));
            if n_in > 0 || j > 0 {
                out.append(" ");
            }
            out.append("-");
            out.append(leaf);
            assert(out@ =~= join_words(words.take(n_in + j + 1)));
            j = j + 1;
        }
        assert(words.take(n_in + j) =~= words);
        out
    }
}

/// When the first action bound to `m` lies at `i`, after none before it.
proof fn lemma_action_with_modifier_prefix(acts: Seq<ItemActionView>, m: ActionModifier, i: int)
    requires
        0 <= i < acts.len(),
        acts[i].modifier == m,
        action_with_modifier(acts.take(i), m) == -1,
    ensures
        action_with_modifier(acts, m) == i,
{
    lemma_action_with_modifier_extend(acts, m, i + 1);
    assert(acts.take(i + 1).drop_last() =~= acts.take(i));
}

/// A first match in a prefix is the first match in the whole sequence.
proof fn lemma_action_with_modifier_extend(acts: Seq<ItemActionView>, m: ActionModifier, k: int)
    requires
        0 <= k <= acts.len(),
    ensures
        action_with_modifier(acts.take(k), m) >= 0 ==> action_with_modifier(acts, m) == action_with_modifier(acts.take(k), m),
    decreases acts.len() - k,
{
    if k < acts.len() {
        lemma_action_with_modifier_extend(acts, m, k + 1);
        assert(acts.take(k + 1).drop_last() =~= acts.take(k));
    } else {
        assert(acts.take(k) =~= acts);
    }
}

} // verus!
