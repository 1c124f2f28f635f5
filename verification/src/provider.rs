//! Result items, their actions, and what activation leads to.

use vstd::prelude::*;

use crate::tags::{normalize_tag_path, Tag, TagSet};
use crate::text::{clone_strings, str_views};

verus! {

/// Which modifier key combination triggers an action.
#[derive(Debug, Clone, Copy, PartialEq, Eq, Hash, Structural)]
pub enum ActionModifier {
    /// Plain Enter (no modifiers).
    Plain,
    /// Shift+Enter.
    Shift,
    /// Ctrl+Enter (Cmd on macOS).
    Ctrl,
    /// Ctrl+Shift+Enter.
    CtrlShift,
    /// Alt+Enter.
    Alt,
    /// Alt+Shift+Enter.
    AltShift,
}

/// The label shown for a modifier in the action bar.
pub open spec fn modifier_label(m: ActionModifier) -> Seq<char> {
    match m {
        ActionModifier::Plain => "\u{23CE}"@,
        ActionModifier::Shift => "\u{21E7}\u{23CE}"@,
        ActionModifier::Ctrl => "^\u{23CE}"@,
        ActionModifier::CtrlShift => "^\u{21E7}\u{23CE}"@,
        ActionModifier::Alt => "\u{2325}\u{23CE}"@,
        ActionModifier::AltShift => "\u{2325}\u{21E7}\u{23CE}"@,
    }
}

/// The modifier that a key combination selects.
pub open spec fn modifier_of(ctrl: bool, shift: bool, alt: bool) -> ActionModifier {
    if ctrl && shift {
        ActionModifier::CtrlShift
    } else if ctrl && !shift && !alt {
        ActionModifier::Ctrl
    } else if !ctrl && shift && !alt {
        ActionModifier::Shift
    } else if !ctrl && !shift && alt {
        ActionModifier::Alt
    } else if !ctrl && shift && alt {
        ActionModifier::AltShift
    } else {
        ActionModifier::Plain
    }
}

impl Default for ActionModifier {
    fn default() -> (r: Self)
        ensures
            r == ActionModifier::Plain,
    {
        ActionModifier::Plain
    }
}

impl ActionModifier {
    /// Short label for display in the action bar.
    pub fn label(&self) -> (r: &'static str)
        ensures
            r@ == modifier_label(*self),
    {
        match self {
            ActionModifier::Plain => "\u{23CE}",
            ActionModifier::Shift => "\u{21E7}\u{23CE}",
            ActionModifier::Ctrl => "^\u{23CE}",
            ActionModifier::CtrlShift => "^\u{21E7}\u{23CE}",
            ActionModifier::Alt => "\u{2325}\u{23CE}",
            ActionModifier::AltShift => "\u{2325}\u{21E7}\u{23CE}",
        }
    }

    /// Matches keyboard modifiers to an action modifier. Ctrl+Shift wins over
    /// Alt; combinations without a dedicated modifier give `None`.
    pub fn from_modifiers(ctrl: bool, shift: bool, alt: bool) -> (r: Self)
        ensures
            r == modifier_of(ctrl, shift, alt),
    {
        match (ctrl, shift, alt) {
            (true, true, false) => ActionModifier::CtrlShift,
            (true, false, false) => ActionModifier::Ctrl,
            (false, true, false) => ActionModifier::Shift,
            (false, false, true) => ActionModifier::Alt,
            (true, true, true) => ActionModifier::CtrlShift,
            (false, true, true) => ActionModifier::AltShift,
            _ => ActionModifier::Plain,
        }
    }
}

/// The content of an action.
pub struct ItemActionView {
    pub name: Seq<char>,
    pub modifier: ActionModifier,
    pub command: Seq<char>,
    pub keep_open: bool,
    pub description: Seq<char>,
}

/// An action that can be performed on a result item.
#[derive(Debug, PartialEq)]
pub struct ItemAction {
    /// Display name for this action (shown in action bar).
    pub name: String,
    /// What modifier triggers this action.
    pub modifier: ActionModifier,
    /// Command to execute, such as `sh:command` or `reaper:action-id`.
    pub command: String,
    /// Keep the launcher open after this action.
    pub keep_open: bool,
    /// Short description shown as tooltip/hint.
    pub description: String,
}

impl View for ItemAction {
    type V = ItemActionView;

    open spec fn view(&self) -> ItemActionView {
        ItemActionView {
            name: self.name@,
            modifier: self.modifier,
            command: self.command@,
            keep_open: self.keep_open,
            description: self.description@,
        }
    }
}

impl Clone for ItemAction {
    fn clone(&self) -> (r: Self)
        ensures
            r == *self,
    {
        ItemAction {
            name: self.name.clone(),
            modifier: self.modifier,
            command: self.command.clone(),
            keep_open: self.keep_open,
            description: self.description.clone(),
        }
    }
}

/// The default action: named `activate`, plain Enter, nothing to execute.
pub open spec fn default_action() -> ItemActionView {
    ItemActionView {
        name: "activate"@,
        modifier: ActionModifier::Plain,
        command: Seq::empty(),
        keep_open: false,
        description: Seq::empty(),
    }
}

impl Default for ItemAction {
    fn default() -> (r: Self)
        ensures
            r@ == default_action(),
    {
        let r = ItemAction {
            name: "activate".to_owned(),
            modifier: ActionModifier::Plain,
            command: String::new(),
            keep_open: false,
            description: String::new(),
        };
        assert(r@.command =~= Seq::<char>::empty());
        r
    }
}

impl ItemAction {
    /// An action with a name and a command, otherwise default.
    pub fn new(name: &str, command: &str) -> (r: Self)
        ensures
            r@ == (ItemActionView { name: name@, command: command@, ..default_action() }),
    {
        ItemAction {
            name: name.to_owned(),
            modifier: ActionModifier::Plain,
            command: command.to_owned(),
            keep_open: false,
            description: String::new(),
        }
    }

    /// The same action, triggered by `modifier`.
    pub fn with_modifier(self, modifier: ActionModifier) -> (r: Self)
        ensures
            r@ == (ItemActionView { modifier, ..self@ }),
    {
        let mut s = self;
        s.modifier = modifier;
        s
    }

    /// The same action, keeping the launcher open.
    pub fn with_keep_open(self) -> (r: Self)
        ensures
            r@ == (ItemActionView { keep_open: true, ..self@ }),
    {
        let mut s = self;
        s.keep_open = true;
        s
    }

    /// The same action, with a description.
    pub fn with_description(self, desc: &str) -> (r: Self)
        ensures
            r@ == (ItemActionView { description: desc@, ..self@ }),
    {
        let mut s = self;
        s.description = desc.to_owned();
        s
    }
}

/// What should happen after an item is activated.
#[derive(Debug, PartialEq, Eq)]
pub enum ActivationResult {
    /// Close the launcher window.
    Close,
    /// Keep the launcher open.
    KeepOpen,
    /// Replace the query with this string (drill-down / menu navigation).
    ReplaceQuery(String),
}

impl Clone for ActivationResult {
    fn clone(&self) -> (r: Self)
        ensures
            r == *self,
    {
        match self {
            ActivationResult::Close => ActivationResult::Close,
            ActivationResult::KeepOpen => ActivationResult::KeepOpen,
            ActivationResult::ReplaceQuery(q) => ActivationResult::ReplaceQuery(q.clone()),
        }
    }
}

/// The content of an item.
pub struct ItemView {
    pub id: Seq<char>,
    pub label: Seq<char>,
    pub sub: Seq<char>,
    pub provider: Seq<char>,
    pub icon: Seq<char>,
    pub actions: Seq<ItemActionView>,
    pub search_fields: Seq<Seq<char>>,
    pub tags: Seq<Seq<char>>,
    pub pinned: bool,
    pub match_positions: Seq<u32>,
}

/// A single result item returned by a provider. The match score and the
/// provider-specific metadata are kept by the application around the library.
#[derive(Debug)]
pub struct Item {
    /// Unique identifier within its provider (used for history tracking).
    pub id: String,
    /// Display label shown in the results list.
    pub label: String,
    /// Secondary text (description, path, etc.).
    pub sub: String,
    /// Provider name that produced this item.
    pub provider: String,
    /// Icon identifier (path, name, or URI).
    pub icon: String,
    /// Available actions for this item.
    pub actions: Vec<ItemAction>,
    /// Searchable text fields; the first is weighted highest.
    pub search_fields: Vec<String>,
    /// Hierarchical tags for categorization and filtering.
    pub tags: TagSet,
    /// Whether this item is pinned to the top of results.
    pub pinned: bool,
    /// Character positions that matched (for highlight rendering).
    pub match_positions: Vec<u32>,
}

/// The views of a sequence of actions.
pub open spec fn action_views(v: Seq<ItemAction>) -> Seq<ItemActionView> {
    v.map_values(|a: ItemAction| a@)
}

impl View for Item {
    type V = ItemView;

    open spec fn view(&self) -> ItemView {
        ItemView {
            id: self.id@,
            label: self.label@,
            sub: self.sub@,
            provider: self.provider@,
            icon: self.icon@,
            actions: action_views(self.actions@),
            search_fields: str_views(self.search_fields@),
            tags: self.tags@,
            pinned: self.pinned,
            match_positions: self.match_positions@,
        }
    }
}

/// A copy of a vector of actions.
pub fn clone_actions(v: &Vec<ItemAction>) -> (r: Vec<ItemAction>)
    ensures
        r@ == v@,
{
    let mut r: Vec<ItemAction> = Vec::new();
    let mut i: usize = 0;
    while i < v.len()
        invariant
            i <= v@.len(),
            r@ == v@.take(i as int),
        decreases v@.len() - i,
    {
        r.push(v[i].clone());
        assert(r@ =~= v@.take(i + 1));
        i = i + 1;
    }
    assert(v@.take(i as int) =~= v@);
    r
}

impl Clone for Item {
    fn clone(&self) -> (r: Self)
        ensures
            r@ == self@,
    {
        let mut positions: Vec<u32> = Vec::new();
        let mut i: usize = 0;
        while i < self.match_positions.len()
            invariant
                i <= self.match_positions@.len(),
                positions@ == self.match_positions@.take(i as int),
            decreases self.match_positions@.len() - i,
        {
            positions.push(self.match_positions[i]);
            assert(positions@ =~= self.match_positions@.take(i + 1));
            i = i + 1;
        }
        assert(self.match_positions@.take(i as int) =~= self.match_positions@);
        Item {
            id: self.id.clone(),
            label: self.label.clone(),
            sub: self.sub.clone(),
            provider: self.provider.clone(),
            icon: self.icon.clone(),
            actions: clone_actions(&self.actions),
            search_fields: clone_strings(&self.search_fields),
            tags: self.tags.clone(),
            pinned: self.pinned,
            match_positions: positions,
        }
    }
}

/// A fresh item: searchable by its label, with the default action only.
pub open spec fn new_item(id: Seq<char>, label: Seq<char>, provider: Seq<char>) -> ItemView {
    ItemView {
        id,
        label,
        sub: Seq::empty(),
        provider,
        icon: Seq::empty(),
        actions: seq![default_action()],
        search_fields: seq![label],
        tags: Seq::empty(),
        pinned: false,
        match_positions: Seq::empty(),
    }
}

impl Item {
    /// A new item, searchable by its label, with the default action.
    pub fn new(id: &str, label: &str, provider: &str) -> (r: Self)
        ensures
            r@ == new_item(id@, label@, provider@),
    {
        let mut search_fields: Vec<String> = Vec::new();
        search_fields.push(label.to_owned());
        let mut actions: Vec<ItemAction> = Vec::new();
        actions.push(ItemAction::default());
        let r = Item {
            id: id.to_owned(),
            label: label.to_owned(),
            sub: String::new(),
            provider: provider.to_owned(),
            icon: String::new(),
            actions,
            search_fields,
            tags: TagSet::new(),
            pinned: false,
            match_positions: Vec::new(),
        };
        assert(r@.actions =~= seq![default_action()]);
        assert(r@.search_fields =~= seq![label@]);
        assert(r@.match_positions =~= Seq::<u32>::empty());
        r
    }

    /// The same item with a secondary text.
    pub fn with_sub(self, sub: &str) -> (r: Self)
        ensures
            r@ == (ItemView { sub: sub@, ..self@ }),
    {
        let mut s = self;
        s.sub = sub.to_owned();
        s
    }

    /// The same item with an icon.
    pub fn with_icon(self, icon: &str) -> (r: Self)
        ensures
            r@ == (ItemView { icon: icon@, ..self@ }),
    {
        let mut s = self;
        s.icon = icon.to_owned();
        s
    }

    /// The same item with other searchable fields.
    pub fn with_search_fields(self, fields: Vec<String>) -> (r: Self)
        ensures
            r@ == (ItemView { search_fields: str_views(fields@), ..self@ }),
    {
        let mut s = self;
        s.search_fields = fields;
        s
    }

    /// The same item with other actions.
    pub fn with_actions(self, actions: Vec<ItemAction>) -> (r: Self)
        ensures
            r@ == (ItemView { actions: action_views(actions@), ..self@ }),
    {
        let mut s = self;
        s.actions = actions;
        s
    }

    /// The same item with exactly these tags, each normalized.
    pub fn with_tags(self, tags: &[&str]) -> (r: Self)
        ensures
            r@ == (ItemView {
                tags: tags@.map_values(|t: &str| normalize_tag_path(t@)),
                ..self@
            }),
    {
        let mut s = self;
        s.tags = TagSet::from_strs(tags);
        s
    }

    /// The same item with one more tag, normalized, unless already present.
    pub fn with_tag(self, tag: &str) -> (r: Self)
        ensures
            r@ == (ItemView {
                tags: if self@.tags.contains(normalize_tag_path(tag@)) {
                    self@.tags
                } else {
                    self@.tags.push(normalize_tag_path(tag@))
                },
                ..self@
            }),
    {
        let mut s = self;
        s.tags.add(Tag::new(tag));
        s
    }
}

} // verus!
