//! Workflow packs: user-registrable definitions of items with multi-modifier
//! actions, tags with colors and icons, icon mappings, magic words and
//! filter presets. Reading and parsing pack files is done by the
//! application; this module turns parsed packs into launcher items.

use vstd::prelude::*;

use crate::provider::{
    action_views, default_action, ActionModifier, Item, ItemAction, ItemActionView, ItemView,
};
use crate::filter::{word_key, MagicWordView, MagicWords};
use crate::tags::{normalize_tag_path, register_spec, update_info, TagInfoView, TagRegistry, TagRegistryView, TagSet};
use crate::text::{drop_keyed, lowercase};
use crate::text::{clone_strings, join_path, joined_path, lookup_pair, pair_lookup, str_views};

verus! {

/// Pack metadata.
#[derive(Debug)]
pub struct PackMeta {
    pub name: String,
    pub version: String,
    pub author: String,
    pub description: String,
    pub url: String,
    pub prefix: Option<String>,
}

/// A tag definition in a pack.
#[derive(Debug)]
pub struct PackTag {
    pub path: String,
    pub name: String,
    pub description: String,
    pub color: String,
    pub icon: String,
}

/// An action of a pack item.
#[derive(Debug)]
pub struct PackAction {
    pub name: String,
    /// The command to execute.
    pub command: String,
    pub description: String,
    pub keep_open: bool,
}

/// Actions keyed by modifier; each is optional.
#[derive(Debug)]
pub struct PackActions {
    pub enter: Option<PackAction>,
    pub shift_enter: Option<PackAction>,
    pub ctrl_enter: Option<PackAction>,
    pub ctrl_shift_enter: Option<PackAction>,
    pub alt_enter: Option<PackAction>,
    pub alt_shift_enter: Option<PackAction>,
}

impl Default for PackActions {
    fn default() -> (r: Self)
        ensures
            r.enter is None && r.shift_enter is None && r.ctrl_enter is None
                && r.ctrl_shift_enter is None && r.alt_enter is None && r.alt_shift_enter is None,
    {
        PackActions {
            enter: None,
            shift_enter: None,
            ctrl_enter: None,
            ctrl_shift_enter: None,
            alt_enter: None,
            alt_shift_enter: None,
        }
    }
}

/// An item defined by a pack.
#[derive(Debug)]
pub struct PackItem {
    pub id: String,
    pub label: String,
    pub sub: String,
    pub icon: String,
    pub tags: Vec<String>,
    pub search_fields: Vec<String>,
    pub pinned: bool,
    pub actions: PackActions,
}

/// A magic word defined by a pack.
#[derive(Debug)]
pub struct PackMagicWord {
    pub keyword: String,
    pub preset: String,
}

/// A filter preset defined by a pack.
#[derive(Debug)]
pub struct PackPreset {
    pub name: String,
    pub included: Vec<String>,
    pub excluded: Vec<String>,
}

/// A complete workflow pack.
#[derive(Debug)]
pub struct PackDef {
    pub pack: PackMeta,
    pub tags: Vec<PackTag>,
    pub items: Vec<PackItem>,
    /// Icon name to path relative to the pack directory.
    pub icons: Vec<(String, String)>,
    pub magic_words: Vec<PackMagicWord>,
    pub presets: Vec<PackPreset>,
}

/// A loaded pack, with the directory it was loaded from.
#[derive(Debug)]
pub struct LoadedPack {
    pub def: PackDef,
    /// Directory the pack was loaded from (for relative icon paths).
    pub base_dir: String,
}

/// The path an icon name resolves to through a pack's icon table.
pub open spec fn resolved_icon(
    icons: Seq<(String, String)>,
    base: Seq<char>,
    name: Seq<char>,
) -> Option<Seq<char>> {
    match pair_lookup(icons, name) {
        Some(rel) => Some(joined_path(base, rel)),
        None => None,
    }
}

/// The item action of a pack action under a modifier.
pub open spec fn pack_action_view(a: PackAction, m: ActionModifier) -> ItemActionView {
    ItemActionView {
        name: a.name@,
        modifier: m,
        command: a.command@,
        keep_open: a.keep_open,
        description: a.description@,
    }
}

/// Appends the action, if present, under its modifier.
pub open spec fn push_action(
    s: Seq<ItemActionView>,
    o: Option<PackAction>,
    m: ActionModifier,
) -> Seq<ItemActionView> {
    match o {
        Some(a) => s.push(pack_action_view(a, m)),
        None => s,
    }
}

/// A pack item's actions, in modifier order; the default action if none.
pub open spec fn pack_actions_view(a: PackActions) -> Seq<ItemActionView> {
    let s = push_action(
        push_action(
            push_action(
                push_action(
                    push_action(push_action(Seq::empty(), a.enter, ActionModifier::Plain), a.shift_enter, ActionModifier::Shift),
                    a.ctrl_enter,
                    ActionModifier::Ctrl,
                ),
                a.ctrl_shift_enter,
                ActionModifier::CtrlShift,
            ),
            a.alt_enter,
            ActionModifier::Alt,
        ),
        a.alt_shift_enter,
        ActionModifier::AltShift,
    );
    if s.len() == 0 {
        seq![default_action()]
    } else {
        s
    }
}

/// The launcher item of a pack item.
pub open spec fn pack_item_view(
    pack_name: Seq<char>,
    icons: Seq<(String, String)>,
    base: Seq<char>,
    pi: PackItem,
) -> ItemView {
    ItemView {
        id: pi.id@,
        label: pi.label@,
        sub: pi.sub@,
        provider: pack_name,
        icon: match resolved_icon(icons, base, pi.icon@) {
            Some(p) => p,
            None => pi.icon@,
        },
        actions: pack_actions_view(pi.actions),
        search_fields: if pi.search_fields@.len() == 0 {
            seq![pi.label@]
        } else {
            str_views(pi.search_fields@)
        },
        tags: pi.tags@.map_values(|s: String| normalize_tag_path(s@)),
        pinned: pi.pinned,
        match_positions: Seq::empty(),
    }
}

/// Converts a pack action to an item action triggered by `modifier`.
pub fn pack_action_to_item_action(pa: &PackAction, modifier: ActionModifier) -> (r: ItemAction)
    ensures
        r@ == pack_action_view(*pa, modifier),
{
    ItemAction {
        name: pa.name.clone(),
        modifier,
        command: pa.command.clone(),
        keep_open: pa.keep_open,
        description: pa.description.clone(),
    }
}

/// Appends the action, if present, under its modifier.
fn push_pack_action(v: &mut Vec<ItemAction>, o: &Option<PackAction>, m: ActionModifier)
    ensures
        action_views(final(v)@) == push_action(action_views(old(v)@), *o, m),
{
    match o {
        Some(a) => {
            let ghost s = v@;
            v.push(pack_action_to_item_action(a, m));
            assert(action_views(v@) =~= action_views(s).push(pack_action_view(*a, m)));
        },
        None => {},
    }
}

impl LoadedPack {
    /// Resolves an icon name to a file path through the pack's icon table.
    pub fn resolve_icon(&self, name: &str) -> (r: Option<String>)
        ensures
            crate::text::opt_view(r) == resolved_icon(self.def.icons@, self.base_dir@, name@),
    {
        match lookup_pair(&self.def.icons, name) {
            Some(rel) => Some(join_path(self.base_dir.as_str(), rel.as_str())),
            None => None,
        }
    }

    /// The actions of a pack item.
    fn item_actions(a: &PackActions) -> (r: Vec<ItemAction>)
        ensures
            action_views(r@) == pack_actions_view(*a),
    {
        let mut v: Vec<ItemAction> = Vec::new();
        assert(action_views(v@) =~= Seq::<ItemActionView>::empty());
        push_pack_action(&mut v, &a.enter, ActionModifier::Plain);
        push_pack_action(&mut v, &a.shift_enter, ActionModifier::Shift);
        push_pack_action(&mut v, &a.ctrl_enter, ActionModifier::Ctrl);
        push_pack_action(&mut v, &a.ctrl_shift_enter, ActionModifier::CtrlShift);
        push_pack_action(&mut v, &a.alt_enter, ActionModifier::Alt);
        push_pack_action(&mut v, &a.alt_shift_enter, ActionModifier::AltShift);
        if v.len() == 0 {
            v.push(ItemAction::default());
            assert(action_views(v@) =~= seq![default_action()]);
        }
        v
    }

    /// The launcher item of one pack item.
    fn item_of(&self, pi: &PackItem) -> (r: Item)
        ensures
            r@ == pack_item_view(self.def.pack.name@, self.def.icons@, self.base_dir@, *pi),
    {
        let icon = match self.resolve_icon(pi.icon.as_str()) {
            Some(p) => p,
            None => pi.icon.clone(),
        };
        let actions = Self::item_actions(&pi.actions);
        let search_fields = if pi.search_fields.len() == 0 {
            let mut f: Vec<String> = Vec::new();
            f.push(pi.label.clone());
            assert(str_views(f@) =~= seq![pi.label@]);
            f
        } else {
            clone_strings(&pi.search_fields)
        };
        let tags = TagSet::from_strings(pi.tags.as_slice());
        let mut item = Item::new(pi.id.as_str(), pi.label.as_str(), self.def.pack.name.as_str());
        item.sub = pi.sub.clone();
        item.icon = icon;
        item.actions = actions;
        item.search_fields = search_fields;
        item.tags = tags;
        item.pinned = pi.pinned;
        item
    }

    /// Converts the pack's items into launcher items, in order.
    pub fn to_items(&self) -> (r: Vec<Item>)
        ensures
            r@.map_values(|i: Item| i@) == self.def.items@.map_values(
                |pi: PackItem| pack_item_view(self.def.pack.name@, self.def.icons@, self.base_dir@, pi),
            ),
    {
        let ghost want = self.def.items@.map_values(
            |pi: PackItem| pack_item_view(self.def.pack.name@, self.def.icons@, self.base_dir@, pi),
        );
        let mut out: Vec<Item> = Vec::new();
        let mut k: usize = 0;
        while k < self.def.items.len()
            invariant
                k <= self.def.items@.len(),
                want == self.def.items@.map_values(
                    |pi: PackItem|
                        pack_item_view(self.def.pack.name@, self.def.icons@, self.base_dir@, pi),
                ),
                out@.map_values(|i: Item| i@) == want.take(k as int),
            decreases self.def.items@.len() - k,
        {
            let ghost old_out = out@;
            let item = self.item_of(&self.def.items[k]);
            out.push(item);
            assert(out@.map_values(|i: Item| i@) =~= old_out.map_values(|i: Item| i@).push(
                want[k as int],
            ));
            assert(want.take(k + 1) =~= want.take(k as int).push(want[k as int]));
            k = k + 1;
        }
        assert(want.take(k as int) =~= want);
        out
    }
}


/// The directory workflow packs are read from, given the values of
/// `XDG_CONFIG_HOME` and `HOME` (`None` where unset).
pub fn default_pack_dir(xdg_config_home: Option<&str>, home: Option<&str>) -> (r: String)
    ensures
        r@ == crate::text::config_file(
            crate::text::opt_str_view(xdg_config_home),
            crate::text::opt_str_view(home),
            "packs"@,
        ),
{
    crate::text::config_file_path(xdg_config_home, home, "packs")
}

/// The registry after registering one pack tag: the tag with its name and
/// description, then its color and its icon where the pack gives them.
pub open spec fn register_pack_tag(m: TagRegistryView, t: PackTag) -> TagRegistryView {
    let path = normalize_tag_path(t.path@);
    let m1 = register_spec(m, path, t.name@, t.description@);
    let m2 = if t.color@.len() > 0 {
        update_info(m1, path, |i: TagInfoView| TagInfoView { color: t.color@, ..i })
    } else {
        m1
    };
    if t.icon@.len() > 0 {
        update_info(m2, path, |i: TagInfoView| TagInfoView { icon: t.icon@, ..i })
    } else {
        m2
    }
}

/// The registry after registering pack tags, in order.
pub open spec fn register_pack_tags(m: TagRegistryView, tags: Seq<PackTag>) -> TagRegistryView
    decreases tags.len(),
{
    if tags.len() == 0 {
        m
    } else {
        register_pack_tag(register_pack_tags(m, tags.drop_last()), tags.last())
    }
}

/// The registry after registering the tags of packs, in order.
pub open spec fn packs_registered(m: TagRegistryView, packs: Seq<LoadedPack>) -> TagRegistryView
    decreases packs.len(),
{
    if packs.len() == 0 {
        m
    } else {
        register_pack_tags(packs_registered(m, packs.drop_last()), packs.last().def.tags@)
    }
}

/// The magic words after adding one: the keyword lower-cased, replacing a
/// word with the same keyword.
pub open spec fn word_added(w: Seq<MagicWordView>, keyword: Seq<char>, preset: Seq<char>) -> Seq<MagicWordView> {
    drop_keyed(w, word_key(), lowercase(keyword)).push(
        MagicWordView { keyword: lowercase(keyword), preset_name: preset },
    )
}

/// The magic words after adding those of a pack, in order.
pub open spec fn pack_words_added(w: Seq<MagicWordView>, mws: Seq<PackMagicWord>) -> Seq<MagicWordView>
    decreases mws.len(),
{
    if mws.len() == 0 {
        w
    } else {
        let prev = pack_words_added(w, mws.drop_last());
        word_added(prev, mws.last().keyword@, mws.last().preset@)
    }
}

/// The magic words after adding those of packs, in order.
pub open spec fn packs_words(w: Seq<MagicWordView>, packs: Seq<LoadedPack>) -> Seq<MagicWordView>
    decreases packs.len(),
{
    if packs.len() == 0 {
        w
    } else {
        pack_words_added(packs_words(w, packs.drop_last()), packs.last().def.magic_words@)
    }
}

/// Registers the tags of packs, with their colors and icons, and adds their
/// magic words.
pub fn register_packs(packs: &[LoadedPack], registry: &mut TagRegistry, words: &mut MagicWords)
    requires
        old(registry).wf(),
    ensures
        final(registry).wf(),
        final(registry)@ == packs_registered(old(registry)@, packs@),
        crate::tags::tags_are_keys(old(registry)@) ==> crate::tags::tags_are_keys(final(registry)@),
        final(words)@ == packs_words(old(words)@, packs@),
{
    let ghost m0 = registry@;
    let ghost w0 = words@;
    let mut p: usize = 0;
    while p < packs.len()
        invariant
            p <= packs@.len(),
            registry.wf(),
            registry@ == packs_registered(m0, packs@.take(p as int)),
            words@ == packs_words(w0, packs@.take(p as int)),
        decreases packs@.len() - p,
    {
        let def = &packs[p].def;
        let ghost m1 = registry@;
        let mut t: usize = 0;
        while t < def.tags.len()
            invariant
                t <= def.tags@.len(),
                registry.wf(),
                registry@ == register_pack_tags(m1, def.tags@.take(t as int)),
            decreases def.tags@.len() - t,
        {
            let tag = &def.tags[t];
            let ghost before = registry@;
            registry.register(tag.path.as_str(), tag.name.as_str(), tag.description.as_str());
            if !tag.color.as_str().is_empty() {
                registry.set_color(tag.path.as_str(), tag.color.as_str());
            }
            if !tag.icon.as_str().is_empty() {
                registry.set_icon(tag.path.as_str(), tag.icon.as_str());
            }
            assert(registry@ == register_pack_tag(before, *tag));
            assert(def.tags@.take(t + 1).drop_last() =~= def.tags@.take(t as int));
            t = t + 1;
        }
        assert(def.tags@.take(t as int) =~= def.tags@);
        let ghost w1 = words@;
        let mut k: usize = 0;
        while k < def.magic_words.len()
            invariant
                k <= def.magic_words@.len(),
                words@ == pack_words_added(w1, def.magic_words@.take(k as int)),
            decreases def.magic_words@.len() - k,
        {
            let mw = &def.magic_words[k];
            words.add(mw.keyword.as_str(), mw.preset.as_str());
            assert(def.magic_words@.take(k + 1).drop_last() =~= def.magic_words@.take(k as int));
            k = k + 1;
        }
        assert(def.magic_words@.take(k as int) =~= def.magic_words@);
        assert(packs@.take(p + 1).drop_last() =~= packs@.take(p as int));
        p = p + 1;
    }
    assert(packs@.take(p as int) =~= packs@);
    proof {
        if crate::tags::tags_are_keys(m0) {
            crate::laws::law_packs_keep_tags_as_keys(m0, packs@);
        }
    }
}

} // verus!
