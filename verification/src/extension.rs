//! Extensions: packages that register commands, preferences and tags with
//! the launcher. Reading and parsing manifests is done by the application;
//! this module turns loaded extensions into launcher items and keeps the
//! extension preferences.

use vstd::prelude::*;
use vstd::string::*;

use crate::pack::resolved_icon;
use crate::provider::{
    action_views, default_action, modifier_of, ActionModifier, Item, ItemAction, ItemActionView,
    ItemView,
};
use crate::tags::{
    normalize_tag_path, register_spec, update_info, TagInfoView, TagRegistry, TagRegistryView,
    TagSet,
};
use crate::tags::lemma_push_no_duplicates;
use crate::text::{
    concat_strs,
    char_upper_first, chars_of, clone_strings, contains_chars, find_str, first_keyed,
    has_substring, index_of_str, lemma_first_keyed, lemma_index_of_str, lowercase, opt_view,
    push_char, str_views, to_lowercase, upper_first,
};

verus! {

/// Extension metadata.
#[derive(Debug)]
pub struct ExtensionMeta {
    pub name: String,
    pub title: String,
    pub version: String,
    pub author: String,
    pub description: String,
    pub icon: String,
    pub url: String,
    pub categories: Vec<String>,
}

/// An option of a dropdown preference.
#[derive(Debug)]
pub struct DropdownOption {
    pub title: String,
    pub value: String,
}

/// A preference field.
#[derive(Debug)]
pub struct PreferenceDef {
    pub name: String,
    pub title: String,
    pub description: String,
    /// Field type: "textfield", "password", "checkbox", "dropdown", "file", "directory".
    pub kind: String,
    pub required: bool,
    pub default: String,
    pub options: Vec<DropdownOption>,
}

/// An inline argument in the search bar.
#[derive(Debug)]
pub struct ArgumentDef {
    pub name: String,
    pub placeholder: String,
    pub required: bool,
    /// Argument type: "text", "dropdown".
    pub kind: String,
}

/// An action definition within a command.
#[derive(Debug)]
pub struct ActionDef {
    pub name: String,
    pub title: String,
    /// The command to execute; empty for the extension's own command.
    pub command: String,
    pub shortcut: String,
    pub icon: String,
    pub keep_open: bool,
}

/// Accessory text or badge shown on the right of an item.
#[derive(Debug)]
pub struct AccessoryDef {
    pub text: String,
    pub icon: String,
    pub tag: String,
    pub color: String,
}

/// A static item within a command.
#[derive(Debug)]
pub struct CommandItemDef {
    pub id: String,
    pub title: String,
    pub subtitle: String,
    pub icon: String,
    pub keywords: Vec<String>,
    pub tags: Vec<String>,
    pub actions: Vec<ActionDef>,
    pub accessories: Vec<AccessoryDef>,
}

/// A command registered by an extension.
#[derive(Debug)]
pub struct CommandDef {
    pub name: String,
    pub title: String,
    pub description: String,
    /// Command mode: "view", "no-view", "background".
    pub mode: String,
    pub icon: String,
    pub keywords: Vec<String>,
    /// Command for no-view and background commands.
    pub command: String,
    /// Background interval (e.g. "30s", "5m", "1h").
    pub interval: String,
    pub preferences: Vec<PreferenceDef>,
    pub arguments: Vec<ArgumentDef>,
    pub actions: Vec<ActionDef>,
    pub items: Vec<CommandItemDef>,
}

/// A tag definition within an extension.
#[derive(Debug)]
pub struct ExtTagDef {
    pub path: String,
    pub name: String,
    pub color: String,
}

/// A complete extension manifest.
#[derive(Debug)]
pub struct ExtensionManifest {
    pub extension: ExtensionMeta,
    pub commands: Vec<CommandDef>,
    pub preferences: Vec<PreferenceDef>,
    pub tags: Vec<ExtTagDef>,
    /// Icon name to path relative to the extension directory.
    pub icons: Vec<(String, String)>,
}

/// How a command runs.
#[derive(Debug, Clone, Copy, PartialEq, Eq, Structural)]
pub enum CommandMode {
    /// Returns structured UI (List, Detail, Form).
    View,
    /// Executes without UI, shows toast/HUD.
    NoView,
    /// Runs on a timer interval.
    Background,
}

/// The mode a lower-cased mode string names; unknown strings give `NoView`.
pub open spec fn command_mode_of(l: Seq<char>) -> CommandMode {
    if l == "view"@ {
        CommandMode::View
    } else if l == "no-view"@ || l == "noview"@ || l == "no_view"@ {
        CommandMode::NoView
    } else if l == "background"@ || l == "bg"@ {
        CommandMode::Background
    } else {
        CommandMode::NoView
    }
}

impl CommandMode {
    /// Parses a mode string, case-insensitively.
    pub fn from_str(s: &str) -> (r: Self)
        ensures
            r == command_mode_of(lowercase(s@)),
    {
        let l = to_lowercase(s);
        if l == "view".to_owned() {
            CommandMode::View
        } else if l == "no-view".to_owned() || l == "noview".to_owned() || l == "no_view".to_owned() {
            CommandMode::NoView
        } else if l == "background".to_owned() || l == "bg".to_owned() {
            CommandMode::Background
        } else {
            CommandMode::NoView
        }
    }
}

/// The modifier a shortcut string names: Ctrl (or Cmd), Shift, Alt (or Opt),
/// looked for case-insensitively.
pub open spec fn shortcut_modifier(s: Seq<char>) -> ActionModifier {
    if s.len() == 0 {
        ActionModifier::Plain
    } else {
        let l = lowercase(s);
        modifier_of(
            has_substring(l, "ctrl"@) || has_substring(l, "cmd"@),
            has_substring(l, "shift"@),
            has_substring(l, "alt"@) || has_substring(l, "opt"@),
        )
    }
}

/// Parses the modifier of a shortcut string such as `ctrl+shift+enter`.
pub fn parse_shortcut_modifier(shortcut: &str) -> (r: ActionModifier)
    ensures
        r == shortcut_modifier(shortcut@),
{
    if shortcut.is_empty() {
        return ActionModifier::Plain;
    }
    let lower = to_lowercase(shortcut);
    let l = chars_of(lower.as_str());
    let has_ctrl = contains_chars(l.as_slice(), chars_of("ctrl").as_slice()) || contains_chars(
        l.as_slice(),
        chars_of("cmd").as_slice(),
    );
    let has_shift = contains_chars(l.as_slice(), chars_of("shift").as_slice());
    let has_alt = contains_chars(l.as_slice(), chars_of("alt").as_slice()) || contains_chars(
        l.as_slice(),
        chars_of("opt").as_slice(),
    );
    ActionModifier::from_modifiers(has_ctrl, has_shift, has_alt)
}

/// A loaded extension with the directory it was loaded from.
#[derive(Debug)]
pub struct LoadedExtension {
    pub manifest: ExtensionManifest,
    /// Directory the manifest was loaded from (for relative icon paths).
    pub base_dir: String,
}

/// The item action of an action definition; an empty command becomes `fallback`.
pub open spec fn ext_action(fallback: Seq<char>, a: ActionDef) -> ItemActionView {
    ItemActionView {
        name: a.title@,
        modifier: shortcut_modifier(a.shortcut@),
        command: if a.command@.len() == 0 {
            fallback
        } else {
            a.command@
        },
        keep_open: a.keep_open,
        description: Seq::empty(),
    }
}

/// The item actions of action definitions; a single default action named
/// `title` running `fallback` if there are none.
pub open spec fn ext_actions(defs: Seq<ActionDef>, title: Seq<char>, fallback: Seq<char>) -> Seq<
    ItemActionView,
> {
    if defs.len() == 0 {
        seq![ItemActionView { name: title, command: fallback, ..default_action() }]
    } else {
        defs.map_values(|a: ActionDef| ext_action(fallback, a))
    }
}

/// The command string of an extension command: `ext:<extension>:<command>`.
pub open spec fn command_exec(ext: Seq<char>, cmd: Seq<char>) -> Seq<char> {
    "ext:"@ + ext + ":"@ + cmd
}

/// An icon name resolved through the extension, or the name itself.
pub open spec fn ext_icon(e: LoadedExtension, name: Seq<char>) -> Seq<char> {
    match resolved_icon(e.manifest.icons@, e.base_dir@, name) {
        Some(p) => p,
        None => name,
    }
}

/// The icon of a command: its own, else the extension's, else the
/// upper-cased first letter of the extension name (`E` for an empty name).
pub open spec fn command_icon(e: LoadedExtension, cmd: CommandDef) -> Seq<char> {
    if cmd.icon@.len() > 0 {
        ext_icon(e, cmd.icon@)
    } else if e.manifest.extension.icon@.len() > 0 {
        ext_icon(e, e.manifest.extension.icon@)
    } else {
        let n = e.manifest.extension.name@;
        seq![upper_first(if n.len() > 0 { n[0] } else { 'E' })]
    }
}

/// Normalized tags of a list, or none.
pub open spec fn tag_paths(tags: Seq<String>) -> Seq<Seq<char>> {
    tags.map_values(|s: String| normalize_tag_path(s@))
}

/// The launcher item of a command.
pub open spec fn command_item(e: LoadedExtension, cmd: CommandDef) -> ItemView {
    let ext = e.manifest.extension.name@;
    ItemView {
        id: ext + "/"@ + cmd.name@,
        label: cmd.title@,
        sub: cmd.description@,
        provider: ext,
        icon: command_icon(e, cmd),
        actions: ext_actions(cmd.actions@, cmd.title@, command_exec(ext, cmd.name@)),
        search_fields: seq![cmd.title@, cmd.name@] + str_views(cmd.keywords@),
        tags: if cmd.items@.len() > 0 {
            tag_paths(cmd.items@[0].tags@)
        } else {
            Seq::empty()
        },
        pinned: false,
        match_positions: Seq::empty(),
    }
}

/// The launcher item of a static item of a command.
pub open spec fn static_item(e: LoadedExtension, cmd: CommandDef, ci: CommandItemDef) -> ItemView {
    let ext = e.manifest.extension.name@;
    ItemView {
        id: ext + "/"@ + cmd.name@ + "/"@ + ci.id@,
        label: ci.title@,
        sub: ci.subtitle@,
        provider: ext,
        icon: if ci.icon@.len() > 0 {
            ext_icon(e, ci.icon@)
        } else {
            command_icon(e, cmd)
        },
        actions: ext_actions(
            ci.actions@,
            cmd.title@,
            command_exec(ext, cmd.name@) + ":"@ + ci.id@,
        ),
        search_fields: seq![ci.title@] + str_views(ci.keywords@),
        tags: tag_paths(ci.tags@),
        pinned: false,
        match_positions: Seq::empty(),
    }
}

/// The items of a command: the command itself, then its static items.
pub open spec fn command_items(e: LoadedExtension, cmd: CommandDef) -> Seq<ItemView> {
    seq![command_item(e, cmd)] + cmd.items@.map_values(
        |ci: CommandItemDef| static_item(e, cmd, ci),
    )
}

/// The items of the first `n` commands of an extension, in order.
pub open spec fn extension_items_upto(e: LoadedExtension, n: int) -> Seq<ItemView>
    decreases n,
{
    if n <= 0 || n > e.manifest.commands@.len() {
        Seq::empty()
    } else {
        extension_items_upto(e, n - 1) + command_items(e, e.manifest.commands@[n - 1])
    }
}

/// The items of an extension.
pub open spec fn extension_items(e: LoadedExtension) -> Seq<ItemView> {
    extension_items_upto(e, e.manifest.commands@.len() as int)
}

impl LoadedExtension {
    /// Resolves an icon name to a file path through the extension's icon table.
    pub fn resolve_icon(&self, name: &str) -> (r: Option<String>)
        ensures
            opt_view(r) == resolved_icon(self.manifest.icons@, self.base_dir@, name@),
    {
        match crate::text::lookup_pair(&self.manifest.icons, name) {
            Some(rel) => Some(crate::text::join_path(self.base_dir.as_str(), rel.as_str())),
            None => None,
        }
    }

    /// An icon name resolved through the extension, or the name itself.
    fn icon_or_name(&self, name: &String) -> (r: String)
        ensures
            r@ == ext_icon(*self, name@),
    {
        match self.resolve_icon(name.as_str()) {
            Some(p) => p,
            None => name.clone(),
        }
    }

    /// The icon of a command.
    fn command_icon_of(&self, cmd: &CommandDef) -> (r: String)
        ensures
            r@ == command_icon(*self, *cmd),
    {
        if !cmd.icon.as_str().is_empty() {
            self.icon_or_name(&cmd.icon)
        } else if !self.manifest.extension.icon.as_str().is_empty() {
            self.icon_or_name(&self.manifest.extension.icon)
        } else {
            let name = chars_of(self.manifest.extension.name.as_str());
            let first = if name.len() > 0 {
                name[0]
            } else {
                'E'
            };
            let mut s = String::new();
            push_char(&mut s, char_upper_first(first));
            s
        }
    }

    /// The item actions of action definitions.
    fn actions_of(defs: &Vec<ActionDef>, title: &String, fallback: &String) -> (r: Vec<ItemAction>)
        ensures
            action_views(r@) == ext_actions(defs@, title@, fallback@),
    {
        let mut v: Vec<ItemAction> = Vec::new();
        if defs.len() == 0 {
            v.push(ItemAction::new(title.as_str(), fallback.as_str()));
            assert(action_views(v@) =~= ext_actions(defs@, title@, fallback@));
            return v;
        }
        let ghost want = defs@.map_values(|a: ActionDef| ext_action(fallback@, a));
        let mut k: usize = 0;
        while k < defs.len()
            invariant
                k <= defs@.len(),
                want == defs@.map_values(|a: ActionDef| ext_action(fallback@, a)),
                action_views(v@) == want.take(k as int),
            decreases defs@.len() - k,
        {
            let a = &defs[k];
            let modifier = parse_shortcut_modifier(a.shortcut.as_str());
            let command = if a.command.as_str().is_empty() {
                fallback.clone()
            } else {
                a.command.clone()
            };
            let ghost old_v = v@;
            v.push(
                ItemAction {
                    name: a.title.clone(),
                    modifier,
                    command,
                    keep_open: a.keep_open,
                    description: String::new(),
                },
            );
            assert(action_views(v@) =~= action_views(old_v).push(want[k as int]));
            assert(want.take(k + 1) =~= want.take(k as int).push(want[k as int]));
            k = k + 1;
        }
        assert(want.take(k as int) =~= want);
        v
    }

    /// The launcher item of a command.
    fn command_item_of(&self, cmd: &CommandDef, icon: &String) -> (r: Item)
        requires
            icon@ == command_icon(*self, *cmd),
        ensures
            r@ == command_item(*self, *cmd),
    {
        let ext = self.manifest.extension.name.as_str();
        let fallback = concat_strs(&["ext:", ext, ":", cmd.name.as_str()]);
        let id = concat_strs(&[ext, "/", cmd.name.as_str()]);
        proof {
            reveal_with_fuel(Seq::fold_left, 5);
        }
        assert(fallback@ =~= command_exec(ext@, cmd.name@));
        assert(id@ =~= ext@ + "/"@ + cmd.name@);
        let mut search_fields: Vec<String> = Vec::new();
        search_fields.push(cmd.title.clone());
        search_fields.push(cmd.name.clone());
        let mut k: usize = 0;
        while k < cmd.keywords.len()
            invariant
                k <= cmd.keywords@.len(),
                str_views(search_fields@) == seq![cmd.title@, cmd.name@] + str_views(
                    cmd.keywords@.take(k as int),
                ),
            decreases cmd.keywords@.len() - k,
        {
            let ghost prev = search_fields@;
            search_fields.push(cmd.keywords[k].clone());
            assert(str_views(search_fields@) =~= str_views(prev).push(cmd.keywords@[k as int]@));
            assert(str_views(cmd.keywords@.take(k + 1)) =~= str_views(cmd.keywords@.take(k as int)).push(
                cmd.keywords@[k as int]@,
            ));
            k = k + 1;
        }
        assert(cmd.keywords@.take(k as int) =~= cmd.keywords@);
        let mut item = Item::new(id.as_str(), cmd.title.as_str(), ext);
        item.sub = cmd.description.clone();
        item.icon = icon.clone();
        item.search_fields = search_fields;
        item.actions = Self::actions_of(&cmd.actions, &cmd.title, &fallback);
        if cmd.items.len() > 0 && cmd.items[0].tags.len() > 0 {
            item.tags = TagSet::from_strings(cmd.items[0].tags.as_slice());
        } else if cmd.items.len() > 0 {
            assert(tag_paths(cmd.items@[0].tags@) =~= Seq::<Seq<char>>::empty());
        }
        item
    }

    /// The launcher item of a static item of a command.
    fn static_item_of(&self, cmd: &CommandDef, ci: &CommandItemDef, icon: &String) -> (r: Item)
        requires
            icon@ == command_icon(*self, *cmd),
        ensures
            r@ == static_item(*self, *cmd, *ci),
    {
        let ext = self.manifest.extension.name.as_str();
        let fallback = concat_strs(&["ext:", ext, ":", cmd.name.as_str(), ":", ci.id.as_str()]);
        let id = concat_strs(&[ext, "/", cmd.name.as_str(), "/", ci.id.as_str()]);
        proof {
            reveal_with_fuel(Seq::fold_left, 7);
        }
        assert(fallback@ =~= command_exec(ext@, cmd.name@) + ":"@ + ci.id@);
        assert(id@ =~= ext@ + "/"@ + cmd.name@ + "/"@ + ci.id@);
        let ci_icon = if !ci.icon.as_str().is_empty() {
            self.icon_or_name(&ci.icon)
        } else {
            icon.clone()
        };
        let mut search_fields: Vec<String> = Vec::new();
        search_fields.push(ci.title.clone());
        let mut k: usize = 0;
        while k < ci.keywords.len()
            invariant
                k <= ci.keywords@.len(),
                str_views(search_fields@) == seq![ci.title@] + str_views(ci.keywords@.take(k as int)),
            decreases ci.keywords@.len() - k,
        {
            let ghost prev = search_fields@;
            search_fields.push(ci.keywords[k].clone());
            assert(str_views(search_fields@) =~= str_views(prev).push(ci.keywords@[k as int]@));
            assert(str_views(ci.keywords@.take(k + 1)) =~= str_views(ci.keywords@.take(k as int)).push(
                ci.keywords@[k as int]@,
            ));
            k = k + 1;
        }
        assert(ci.keywords@.take(k as int) =~= ci.keywords@);
        let mut item = Item::new(id.as_str(), ci.title.as_str(), ext);
        item.sub = ci.subtitle.clone();
        item.icon = ci_icon;
        item.search_fields = search_fields;
        item.actions = Self::actions_of(&ci.actions, &cmd.title, &fallback);
        if ci.tags.len() > 0 {
            item.tags = TagSet::from_strings(ci.tags.as_slice());
        } else {
            assert(tag_paths(ci.tags@) =~= Seq::<Seq<char>>::empty());
        }
        item
    }

    /// Converts the extension's commands into launcher items: each command,
    /// followed by its static items.
    pub fn to_items(&self) -> (r: Vec<Item>)
        ensures
            r@.map_values(|i: Item| i@) == extension_items(*self),
    {
        let mut items: Vec<Item> = Vec::new();
        let mut c: usize = 0;
        assert(items@.map_values(|i: Item| i@) =~= Seq::<ItemView>::empty());
        while c < self.manifest.commands.len()
            invariant
                c <= self.manifest.commands@.len(),
                items@.map_values(|i: Item| i@) == extension_items_upto(*self, c as int),
            decreases self.manifest.commands@.len() - c,
        {
            let cmd = &self.manifest.commands[c];
            let icon = self.command_icon_of(cmd);
            let ghost base = items@.map_values(|i: Item| i@);
            let ghost statics = cmd.items@.map_values(|ci: CommandItemDef| static_item(*self, *cmd, ci));
            items.push(self.command_item_of(cmd, &icon));
            assert(items@.map_values(|i: Item| i@) =~= base + seq![command_item(*self, *cmd)]);
            let mut k: usize = 0;
            while k < cmd.items.len()
                invariant
                    k <= cmd.items@.len(),
                    icon@ == command_icon(*self, *cmd),
                    statics == cmd.items@.map_values(|ci: CommandItemDef| static_item(*self, *cmd, ci)),
                    items@.map_values(|i: Item| i@) == base + seq![command_item(*self, *cmd)]
                        + statics.take(k as int),
                decreases cmd.items@.len() - k,
            {
                let ghost before = items@.map_values(|i: Item| i@);
                items.push(self.static_item_of(cmd, &cmd.items[k], &icon));
                assert(items@.map_values(|i: Item| i@) =~= before.push(statics[k as int]));
                assert(base + seq![command_item(*self, *cmd)] + statics.take(k + 1) =~= (base
                    + seq![command_item(*self, *cmd)] + statics.take(k as int)).push(
                    statics[k as int],
                ));
                k = k + 1;
            }
            assert(statics.take(k as int) =~= statics);
            assert(extension_items_upto(*self, c + 1) =~= base + command_items(*self, *cmd));
            c = c + 1;
        }
        items
    }
}


/// The key under which a preference of an extension is stored: `<extension>.<preference>`.
pub open spec fn pref_key(ext: Seq<char>, pref: Seq<char>) -> Seq<char> {
    ext + "."@ + pref
}

/// The map that parallel key and value lists stand for; a key that occurs
/// twice takes its last value.
pub open spec fn pairs_as_map(keys: Seq<Seq<char>>, vals: Seq<Seq<char>>) -> Map<Seq<char>, Seq<char>> {
    Map::new(|k: Seq<char>| keys.contains(k), |k: Seq<char>| vals[index_of_str(keys, k)])
}

/// The map of a list of key/value pairs, later pairs overriding earlier ones.
pub open spec fn pref_map(pairs: Seq<(String, String)>) -> Map<Seq<char>, Seq<char>>
    decreases pairs.len(),
{
    if pairs.len() == 0 {
        Map::empty()
    } else {
        pref_map(pairs.drop_last()).insert(pairs.last().0@, pairs.last().1@)
    }
}

/// The items of the first `n` extensions, in order.
pub open spec fn all_items_upto(exts: Seq<LoadedExtension>, n: int) -> Seq<ItemView>
    decreases n,
{
    if n <= 0 || n > exts.len() {
        Seq::empty()
    } else {
        all_items_upto(exts, n - 1) + extension_items(exts[n - 1])
    }
}

/// The registry after registering one extension tag: the tag with its name
/// and an empty description, then its color if it has one.
pub open spec fn register_tag_def(m: TagRegistryView, t: ExtTagDef) -> TagRegistryView {
    let path = normalize_tag_path(t.path@);
    let m1 = register_spec(m, path, t.name@, Seq::empty());
    if t.color@.len() > 0 {
        update_info(m1, path, |i: TagInfoView| TagInfoView { color: t.color@, ..i })
    } else {
        m1
    }
}

/// The registry after registering tag definitions, in order.
pub open spec fn register_tag_defs(m: TagRegistryView, defs: Seq<ExtTagDef>) -> TagRegistryView
    decreases defs.len(),
{
    if defs.len() == 0 {
        m
    } else {
        register_tag_def(register_tag_defs(m, defs.drop_last()), defs.last())
    }
}

/// The registry after registering the tags of extensions, in order.
pub open spec fn register_ext_tags(m: TagRegistryView, exts: Seq<LoadedExtension>) -> TagRegistryView
    decreases exts.len(),
{
    if exts.len() == 0 {
        m
    } else {
        register_tag_defs(register_ext_tags(m, exts.drop_last()), exts.last().manifest.tags@)
    }
}

/// The name of a loaded extension.
pub open spec fn ext_name_key() -> spec_fn(LoadedExtension) -> Seq<char> {
    |e: LoadedExtension| e.manifest.extension.name@
}

/// Holds the loaded extensions and the preference values set for them.
pub struct ExtensionRegistry {
    extensions: Vec<LoadedExtension>,
    pref_keys: Vec<String>,
    pref_vals: Vec<String>,
    prefs_path: String,
}

impl ExtensionRegistry {
    /// Keys and values pair up, and each key is stored once.
    pub closed spec fn wf(&self) -> bool {
        &&& self.pref_keys@.len() == self.pref_vals@.len()
        &&& str_views(self.pref_keys@).no_duplicates()
    }

    /// The loaded extensions, in load order.
    pub closed spec fn loaded(&self) -> Seq<LoadedExtension> {
        self.extensions@
    }

    /// The preference values, by `<extension>.<preference>` key.
    pub closed spec fn prefs(&self) -> Map<Seq<char>, Seq<char>> {
        pairs_as_map(str_views(self.pref_keys@), str_views(self.pref_vals@))
    }

    /// The file the preferences are saved to.
    pub closed spec fn path_spec(&self) -> Seq<char> {
        self.prefs_path@
    }

    /// Stores `value` under `key`, replacing an earlier value.
    fn put_pref(&mut self, key: String, value: String)
        requires
            old(self).wf(),
        ensures
            final(self).wf(),
            final(self).prefs() == old(self).prefs().insert(key@, value@),
            final(self).loaded() == old(self).loaded(),
            final(self).path_spec() == old(self).path_spec(),
    {
        let ghost keys = str_views(self.pref_keys@);
        let ghost vals = str_views(self.pref_vals@);
        let ghost want = self.prefs().insert(key@, value@);
        proof {
            lemma_index_of_str(keys, key@);
        }
        match find_str(&self.pref_keys, key.as_str()) {
            Some(i) => {
                self.pref_vals.set(i, value);
                assert(str_views(self.pref_vals@) =~= vals.update(i as int, want[key@]));
                assert forall|k: Seq<char>| #[trigger] keys.contains(k) && k != key@ implies vals.update(
                    i as int,
                    want[key@],
                )[index_of_str(keys, k)] == vals[index_of_str(keys, k)] by {
                    lemma_index_of_str(keys, k);
                }
                assert(self.prefs() =~= want);
            },
            None => {
                proof {
                    lemma_push_no_duplicates(keys, key@);
                }
                self.pref_keys.push(key);
                self.pref_vals.push(value);
                assert(str_views(self.pref_keys@) =~= keys.push(key@)) by {
                    assert(self.pref_keys@.last()@ == key@);
                }
                assert(str_views(self.pref_vals@) =~= vals.push(value@)) by {
                    assert(self.pref_vals@.last()@ == value@);
                }
                assert forall|k: Seq<char>| #[trigger] keys.contains(k) implies index_of_str(
                    keys.push(key@),
                    k,
                ) == index_of_str(keys, k) by {
                    assert(keys.push(key@).drop_last() =~= keys);
                }
                assert(index_of_str(keys.push(key@), key@) == keys.len());
                assert forall|k: Seq<char>| keys.push(key@).contains(k) <==> (keys.contains(k) || k
                    == key@) by {
                    if keys.push(key@).contains(k) && k != key@ {
                        let j = choose|j: int| 0 <= j < keys.len() + 1 && keys.push(key@)[j] == k;
                        assert(keys[j] == k);
                    }
                    if keys.contains(k) {
                        let j = choose|j: int| 0 <= j < keys.len() && keys[j] == k;
                        assert(keys.push(key@)[j] == k);
                    }
                    if k == key@ {
                        assert(keys.push(key@)[keys.len() as int] == k);
                    }
                }
                assert forall|k: Seq<char>| #[trigger] keys.contains(k) implies index_of_str(keys, k)
                    < keys.len() && index_of_str(keys, k) >= 0 by {
                    lemma_index_of_str(keys, k);
                }
                assert(self.prefs() =~= want);
            },
        }
    }

    /// A registry with no extensions, holding the preferences read from
    /// `prefs_path` (later pairs override earlier ones).
    pub fn new(prefs_path: &str, preferences: Vec<(String, String)>) -> (r: Self)
        ensures
            r.wf(),
            r.loaded() == Seq::<LoadedExtension>::empty(),
            r.prefs() == pref_map(preferences@),
            r.path_spec() == prefs_path@,
    {
        let mut r = ExtensionRegistry {
            extensions: Vec::new(),
            pref_keys: Vec::new(),
            pref_vals: Vec::new(),
            prefs_path: prefs_path.to_owned(),
        };
        assert(r.prefs() =~= Map::<Seq<char>, Seq<char>>::empty());
        assert(str_views(r.pref_keys@) =~= Seq::<Seq<char>>::empty());
        let mut i: usize = 0;
        while i < preferences.len()
            invariant
                r.wf(),
                i <= preferences@.len(),
                r.loaded() == Seq::<LoadedExtension>::empty(),
                r.path_spec() == prefs_path@,
                r.prefs() == pref_map(preferences@.take(i as int)),
            decreases preferences@.len() - i,
        {
            let (k, v) = (preferences[i].0.clone(), preferences[i].1.clone());
            r.put_pref(k, v);
            assert(preferences@.take(i + 1).drop_last() =~= preferences@.take(i as int));
            i = i + 1;
        }
        assert(preferences@.take(i as int) =~= preferences@);
        r
    }

    /// Adds an extension that was loaded; a manifest that failed to load is skipped.
    pub fn load_extension(&mut self, loaded: Result<LoadedExtension, String>) -> (added: bool)
        requires
            old(self).wf(),
        ensures
            final(self).wf(),
            added == loaded is Ok,
            final(self).loaded() == match loaded {
                Ok(e) => old(self).loaded().push(e),
                Err(_) => old(self).loaded(),
            },
            final(self).prefs() == old(self).prefs(),
            final(self).path_spec() == old(self).path_spec(),
    {
        match loaded {
            Ok(e) => {
                self.extensions.push(e);
                true
            },
            Err(_) => false,
        }
    }

    /// All loaded extensions.
    pub fn extensions(&self) -> (r: &[LoadedExtension])
        ensures
            r@ == self.loaded(),
    {
        self.extensions.as_slice()
    }

    /// All items of all extensions, extension by extension.
    pub fn all_items(&self) -> (r: Vec<Item>)
        ensures
            r@.map_values(|i: Item| i@) == all_items_upto(self.loaded(), self.loaded().len() as int),
    {
        let mut items: Vec<Item> = Vec::new();
        let mut e: usize = 0;
        assert(items@.map_values(|i: Item| i@) =~= Seq::<ItemView>::empty());
        while e < self.extensions.len()
            invariant
                e <= self.extensions@.len(),
                items@.map_values(|i: Item| i@) == all_items_upto(self.extensions@, e as int),
            decreases self.extensions@.len() - e,
        {
            let ghost base = items@.map_values(|i: Item| i@);
            let mut more = self.extensions[e].to_items();
            let ghost added = more@.map_values(|i: Item| i@);
            items.append(&mut more);
            assert(items@.map_values(|i: Item| i@) =~= base + added);
            e = e + 1;
        }
        items
    }

    /// Registers the tags of all extensions with `registry`: each with its
    /// name and an empty description, then its color if it has one.
    pub fn register_tags(&self, registry: &mut TagRegistry)
        requires
            old(registry).wf(),
        ensures
            final(registry).wf(),
            final(registry)@ == register_ext_tags(old(registry)@, self.loaded()),
            crate::tags::tags_are_keys(old(registry)@) ==> crate::tags::tags_are_keys(final(registry)@),
    {
        let ghost m0 = registry@;
        let mut e: usize = 0;
        while e < self.extensions.len()
            invariant
                e <= self.extensions@.len(),
                registry.wf(),
                registry@ == register_ext_tags(m0, self.extensions@.take(e as int)),
            decreases self.extensions@.len() - e,
        {
            let ext = &self.extensions[e];
            let ghost m1 = registry@;
            let mut t: usize = 0;
            while t < ext.manifest.tags.len()
                invariant
                    t <= ext.manifest.tags@.len(),
                    registry.wf(),
                    registry@ == register_tag_defs(m1, ext.manifest.tags@.take(t as int)),
                decreases ext.manifest.tags@.len() - t,
            {
                let tag = &ext.manifest.tags[t];
                let ghost before = registry@;
                registry.register(tag.path.as_str(), tag.name.as_str(), "");
                proof {
                    reveal_strlit("");
                    assert(""@ =~= Seq::<char>::empty());
                }
                if !tag.color.as_str().is_empty() {
                    registry.set_color(tag.path.as_str(), tag.color.as_str());
                    assert(registry@.infos =~= register_tag_def(before, *tag).infos);
                }
                assert(registry@ == register_tag_def(before, *tag));
                assert(ext.manifest.tags@.take(t + 1).drop_last() =~= ext.manifest.tags@.take(
                    t as int,
                ));
                t = t + 1;
            }
            assert(ext.manifest.tags@.take(t as int) =~= ext.manifest.tags@);
            assert(self.extensions@.take(e + 1).drop_last() =~= self.extensions@.take(e as int));
            e = e + 1;
        }
        assert(self.extensions@.take(e as int) =~= self.extensions@);
        proof {
            if crate::tags::tags_are_keys(m0) {
                crate::laws::law_ext_tags_keep_tags_as_keys(m0, self.extensions@);
            }
        }
    }

    /// The value of a preference of an extension, if one was set.
    pub fn get_pref(&self, ext_name: &str, pref_name: &str) -> (r: Option<&str>)
        requires
            self.wf(),
        ensures
            match r {
                Some(v) => self.prefs().contains_key(pref_key(ext_name@, pref_name@)) && v@
                    == self.prefs()[pref_key(ext_name@, pref_name@)],
                None => !self.prefs().contains_key(pref_key(ext_name@, pref_name@)),
            },
    {
        let key = concat_strs(&[ext_name, ".", pref_name]);
        proof {
            reveal_with_fuel(Seq::fold_left, 4);
            lemma_index_of_str(str_views(self.pref_keys@), key@);
        }
        assert(key@ =~= pref_key(ext_name@, pref_name@));
        match find_str(&self.pref_keys, key.as_str()) {
            Some(i) => Some(self.pref_vals[i].as_str()),
            None => None,
        }
    }

    /// Sets a preference of an extension; the application saves the
    /// preferences afterwards.
    pub fn set_pref(&mut self, ext_name: &str, pref_name: &str, value: &str)
        requires
            old(self).wf(),
        ensures
            final(self).wf(),
            final(self).prefs() == old(self).prefs().insert(pref_key(ext_name@, pref_name@), value@),
            final(self).loaded() == old(self).loaded(),
            final(self).path_spec() == old(self).path_spec(),
    {
        let key = concat_strs(&[ext_name, ".", pref_name]);
        proof {
            reveal_with_fuel(Seq::fold_left, 4);
        }
        assert(key@ =~= pref_key(ext_name@, pref_name@));
        self.put_pref(key, value.to_owned());
    }

    /// The preference definitions of the first extension named `ext_name`;
    /// none if no extension has that name.
    pub fn pref_defs(&self, ext_name: &str) -> (r: Vec<&PreferenceDef>)
        ensures
            ({
                let i = first_keyed(self.loaded(), ext_name_key(), ext_name@);
                if i >= 0 {
                    r@.map_values(|p: &PreferenceDef| *p) == self.loaded()[i].manifest.preferences@
                } else {
                    r@.len() == 0
                }
            }),
    {
        let name = ext_name.to_owned();
        let mut i: usize = 0;
        while i < self.extensions.len()
            invariant
                i <= self.extensions@.len(),
                name@ == ext_name@,
                forall|j: int| 0 <= j < i ==> ext_name_key()(self.extensions@[j]) != ext_name@,
            decreases self.extensions@.len() - i,
        {
            if self.extensions[i].manifest.extension.name == name {
                proof {
                    lemma_first_keyed(self.extensions@, ext_name_key(), ext_name@, i as int);
                }
                let prefs = &self.extensions[i].manifest.preferences;
                let mut r: Vec<&PreferenceDef> = Vec::new();
                let mut k: usize = 0;
                while k < prefs.len()
                    invariant
                        k <= prefs@.len(),
                        r@.map_values(|p: &PreferenceDef| *p) == prefs@.take(k as int),
                    decreases prefs@.len() - k,
                {
                    let ghost before = r@;
                    r.push(&prefs[k]);
                    assert(r@ =~= before.push(&prefs@[k as int]));
                    assert(r@.map_values(|p: &PreferenceDef| *p) =~= before.map_values(
                        |p: &PreferenceDef| *p,
                    ).push(prefs@[k as int]));
                    assert(prefs@.take(k + 1) =~= prefs@.take(k as int).push(prefs@[k as int]));
                    k = k + 1;
                }
                assert(prefs@.take(k as int) =~= prefs@);
                return r;
            }
            i = i + 1;
        }
        proof {
            lemma_first_keyed(self.extensions@, ext_name_key(), ext_name@, i as int);
        }
        Vec::new()
    }

    /// The preference values as key/value pairs, for saving.
    pub fn preferences(&self) -> (r: Vec<(String, String)>)
        requires
            self.wf(),
        ensures
            pref_map(r@) == self.prefs(),
    {
        let mut r: Vec<(String, String)> = Vec::new();
        let mut i: usize = 0;
        let ghost keys = str_views(self.pref_keys@);
        let ghost vals = str_views(self.pref_vals@);
        assert(pref_map(r@) =~= pairs_as_map(keys.take(0), vals.take(0)));
        while i < self.pref_keys.len()
            invariant
                self.wf(),
                i <= keys.len(),
                keys == str_views(self.pref_keys@),
                vals == str_views(self.pref_vals@),
                pref_map(r@) == pairs_as_map(keys.take(i as int), vals.take(i as int)),
            decreases keys.len() - i,
        {
            let ghost before = r@;
            r.push((self.pref_keys[i].clone(), self.pref_vals[i].clone()));
            assert(r@.drop_last() =~= before);
            let ghost k0 = keys.take(i as int);
            let ghost k1 = keys.take(i + 1);
            assert(k1 =~= k0.push(keys[i as int]));
            assert(vals.take(i + 1) =~= vals.take(i as int).push(vals[i as int]));
            assert forall|k: Seq<char>| k != keys[i as int] && #[trigger] k0.contains(k) implies index_of_str(
                k1,
                k,
            ) == index_of_str(k0, k) by {
                assert(k1.drop_last() =~= k0);
            }
            assert forall|k: Seq<char>| #[trigger] k0.contains(k) implies 0 <= index_of_str(k0, k)
                < k0.len() by {
                lemma_index_of_str(k0, k);
            }
            assert forall|k: Seq<char>| k1.contains(k) <==> (k0.contains(k) || k == keys[i as int]) by {
                if k1.contains(k) && k != keys[i as int] {
                    let j = choose|j: int| 0 <= j < k1.len() && k1[j] == k;
                    assert(k0[j] == k);
                }
                if k0.contains(k) {
                    let j = choose|j: int| 0 <= j < k0.len() && k0[j] == k;
                    assert(k1[j] == k);
                }
                if k == keys[i as int] {
                    assert(k1[i as int] == k);
                }
            }
            assert(pref_map(r@) =~= pairs_as_map(k1, vals.take(i + 1)));
            i = i + 1;
        }
        assert(keys.take(i as int) =~= keys);
        assert(vals.take(i as int) =~= vals);
        r
    }

    /// The file the preferences are saved to.
    pub fn prefs_path(&self) -> (r: &str)
        ensures
            r@ == self.path_spec(),
    {
        self.prefs_path.as_str()
    }
}


/// The directory extensions are read from, given the values of
/// `XDG_CONFIG_HOME` and `HOME` (`None` where unset).
pub fn default_extensions_dir(xdg_config_home: Option<&str>, home: Option<&str>) -> (r: String)
    ensures
        r@ == crate::text::config_file(
            crate::text::opt_str_view(xdg_config_home),
            crate::text::opt_str_view(home),
            "extensions"@,
        ),
{
    crate::text::config_file_path(xdg_config_home, home, "extensions")
}

/// Path of the extension preferences file, given the values of
/// `XDG_DATA_HOME` and `HOME` (`None` where unset).
pub fn default_prefs_path(xdg_data_home: Option<&str>, home: Option<&str>) -> (r: String)
    ensures
        r@ == crate::text::data_file(
            crate::text::opt_str_view(xdg_data_home),
            crate::text::opt_str_view(home),
            "extension-prefs.json"@,
        ),
{
    crate::text::data_file_path(xdg_data_home, home, "extension-prefs.json")
}

impl ExtensionRegistry {
    /// The storage directory of an extension, given the values of
    /// `XDG_DATA_HOME` and `HOME` (`None` where unset).
    pub fn storage_dir(&self, xdg_data_home: Option<&str>, home: Option<&str>, ext_name: &str) -> (r: String)
        ensures
            r@ == crate::text::joined_path(
                crate::text::data_file(
                    crate::text::opt_str_view(xdg_data_home),
                    crate::text::opt_str_view(home),
                    "extensions"@,
                ),
                ext_name@,
            ),
    {
        let dir = crate::text::data_file_path(xdg_data_home, home, "extensions");
        crate::text::join_path(dir.as_str(), ext_name)
    }
}


/// The launcher services an extension's command is given: its name and the
/// directory of its own storage. Clipboard, notifications, opening and the
/// storage file's reading and writing are done by the application.
pub struct ExtensionApi {
    ext_name: String,
    storage_dir: String,
}

impl ExtensionApi {
    /// A handle for the extension `ext_name`, storing under `storage_dir`.
    pub fn new(ext_name: &str, storage_dir: &str) -> (r: Self)
        ensures
            r.name_view() == ext_name@,
            r.dir_view() == storage_dir@,
    {
        ExtensionApi { ext_name: ext_name.to_owned(), storage_dir: storage_dir.to_owned() }
    }

    /// The extension's name.
    pub closed spec fn name_view(&self) -> Seq<char> {
        self.ext_name@
    }

    /// The extension's storage directory.
    pub closed spec fn dir_view(&self) -> Seq<char> {
        self.storage_dir@
    }

    /// The extension's name.
    pub fn extension_name(&self) -> (r: &str)
        ensures
            r@ == self.name_view(),
    {
        self.ext_name.as_str()
    }

    /// The extension's storage directory.
    pub fn storage_dir(&self) -> (r: &str)
        ensures
            r@ == self.dir_view(),
    {
        self.storage_dir.as_str()
    }

    /// The file that holds the extension's key-value storage.
    pub fn storage_file(&self) -> (r: String)
        ensures
            r@ == crate::text::joined_path(self.dir_view(), "storage.json"@),
    {
        crate::text::join_path(self.storage_dir.as_str(), "storage.json")
    }
}

} // verus!
