use launcher_core::actions::{
    extension_activation, extension_command, workflow_activation, workflow_command,
    ExtensionCommand, WorkflowCommand,
};
use launcher_core::desktop::{app_item, clean_exec, desktop_dirs, parse_desktop_entry, visible_unique, DesktopEntry};
use launcher_core::extension::{
    default_extensions_dir, default_prefs_path, parse_shortcut_modifier, ActionDef, CommandDef,
    CommandItemDef, CommandMode, ExtTagDef, ExtensionApi, ExtensionManifest, ExtensionMeta,
    ExtensionRegistry, LoadedExtension, PreferenceDef,
};
use launcher_core::pack::{
    default_pack_dir, LoadedPack, PackAction, PackActions, PackDef, PackItem, PackMeta,
};
use launcher_core::provider::{ActionModifier, ActivationResult, Item, ItemAction};
use launcher_core::tags::{Tag, TagRegistry};

fn strings(v: &[&str]) -> Vec<String> {
    v.iter().map(|s| s.to_string()).collect()
}

// ── Desktop entries ────────────────────────────────────────────

const FIREFOX: &str = "[Desktop Entry]\n\
Type=Application\n\
Name = Firefox\n\
GenericName=Web Browser\n\
Comment=Browse the Web\n\
Exec=firefox %u\n\
Icon=firefox\n\
Keywords=web;browser; ;internet;\n\
Categories=Network;WebBrowser;\n\
[Desktop Action new-window]\n\
Name=New Window\n";

#[test]
fn desktop_file_is_parsed() {
    let e = parse_desktop_entry(FIREFOX, "firefox").unwrap();
    assert_eq!(e.id, "firefox");
    assert_eq!(e.name, "Firefox");
    assert_eq!(e.generic_name, "Web Browser");
    assert_eq!(e.comment, "Browse the Web");
    assert_eq!(e.command, "firefox %u");
    assert_eq!(e.icon, "firefox");
    assert_eq!(e.icon_path, "");
    assert_eq!(e.keywords, strings(&["web", "browser", "internet"]));
    assert_eq!(e.categories, strings(&["Network", "WebBrowser"]));
    assert!(!e.hidden);
}

#[test]
fn desktop_file_needs_an_application_with_a_name() {
    assert!(parse_desktop_entry("[Desktop Entry]\nType=Link\nName=X\n", "x").is_none());
    assert!(parse_desktop_entry("[Desktop Entry]\nType=Application\n", "x").is_none());
    assert!(parse_desktop_entry("Type=Application\nName=X\n", "x").is_none());
    let e = parse_desktop_entry("[Desktop Entry]\nType=Application\nName=X\nNoDisplay=true\n", "x")
        .unwrap();
    assert!(e.hidden);
}

#[test]
fn field_codes_are_stripped() {
    assert_eq!(clean_exec("firefox %u"), "firefox");
    assert_eq!(clean_exec("  env A=1   app --x %F  -y "), "env A=1 app --x -y");
    assert_eq!(clean_exec(""), "");
}

#[test]
fn application_item() {
    let mut e = parse_desktop_entry(FIREFOX, "firefox").unwrap();
    let item = app_item(&e);
    assert_eq!(item.id, "firefox");
    assert_eq!(item.label, "Firefox");
    assert_eq!(item.provider, "applications");
    assert_eq!(item.sub, "Browse the Web");
    assert_eq!(item.icon, "firefox");
    assert_eq!(
        item.search_fields,
        strings(&["Firefox", "Web Browser", "Browse the Web", "web browser internet", "Network WebBrowser"])
    );
    let tags: Vec<String> = item.tags.tags().iter().map(|t| t.path().to_string()).collect();
    assert_eq!(
        tags,
        strings(&[
            "desktop/applications",
            "desktop/applications/network",
            "desktop/applications/webbrowser"
        ])
    );
    e.icon_path = "/icons/firefox.png".to_string();
    assert_eq!(app_item(&e).icon, "/icons/firefox.png");
}

fn entry(name: &str, hidden: bool) -> DesktopEntry {
    let mut e = parse_desktop_entry("[Desktop Entry]\nType=Application\nName=N\n", name).unwrap();
    e.name = name.to_string();
    e.hidden = hidden;
    e
}

#[test]
fn hidden_and_duplicate_applications_are_dropped() {
    let kept = visible_unique(vec![
        entry("a", false),
        entry("b", true),
        entry("a", false),
        entry("b", false),
        entry("c", false),
    ]);
    let names: Vec<String> = kept.iter().map(|e| e.name.clone()).collect();
    assert_eq!(names, strings(&["a", "b", "c"]));
}

#[test]
fn application_directories() {
    assert_eq!(
        desktop_dirs(Some("/a:/b/"), Some("/home/u"), Some("/data")),
        strings(&[
            "/a/applications",
            "/b/applications",
            "/home/u/.local/share/applications",
            "/data/applications"
        ])
    );
    assert_eq!(
        desktop_dirs(None, None, None),
        strings(&["/usr/share/applications", "/usr/local/share/applications"])
    );
}

// ── Workflow and extension commands ────────────────────────────

#[test]
fn workflow_commands_by_protocol() {
    assert_eq!(workflow_command("echo hi"), WorkflowCommand::Shell("echo hi".to_string()));
    assert_eq!(workflow_command("sh:ls -l"), WorkflowCommand::Shell("ls -l".to_string()));
    assert_eq!(workflow_command(":ls"), WorkflowCommand::Shell("ls".to_string()));
    assert_eq!(
        workflow_command("script:/x/run.py"),
        WorkflowCommand::Script { interpreter: "python3".to_string(), path: "/x/run.py".to_string() }
    );
    assert_eq!(
        workflow_command("script:tool.lua"),
        WorkflowCommand::Script { interpreter: "lua".to_string(), path: "tool.lua".to_string() }
    );
    assert_eq!(
        workflow_command("script:run"),
        WorkflowCommand::Script { interpreter: "sh".to_string(), path: "run".to_string() }
    );
    assert_eq!(workflow_command("reaper:40044"), WorkflowCommand::Reaper("40044".to_string()));
    assert_eq!(
        workflow_command("ipc:/tmp/s.sock:play"),
        WorkflowCommand::Ipc { socket: "/tmp/s.sock".to_string(), message: "play".to_string() }
    );
    assert_eq!(workflow_command("ipc:/tmp/s.sock"), WorkflowCommand::IpcIncomplete);
    assert_eq!(workflow_command("internal:quit"), WorkflowCommand::Internal("quit".to_string()));
    assert_eq!(workflow_command("ftp:x"), WorkflowCommand::Unknown("ftp".to_string()));
}

#[test]
fn workflow_activation_falls_back_to_first_action() {
    let item = Item::new("w", "W", "workflows").with_actions(vec![
        ItemAction::new("run", "sh:a"),
        ItemAction::new("other", "reaper:1").with_keep_open(),
    ]);
    let r = workflow_activation(&item, "other");
    assert_eq!(r.command, Some(WorkflowCommand::Reaper("1".to_string())));
    assert_eq!(r.result, ActivationResult::KeepOpen);
    let r = workflow_activation(&item, "missing");
    assert_eq!(r.command, Some(WorkflowCommand::Shell("a".to_string())));
    assert_eq!(r.result, ActivationResult::Close);
    let bare = Item::new("b", "B", "workflows").with_actions(vec![]);
    let r = workflow_activation(&bare, "run");
    assert_eq!(r.command, None);
    assert_eq!(r.result, ActivationResult::Close);
}

#[test]
fn extension_commands_by_first_part() {
    assert_eq!(extension_command("ext:todo:add"), ExtensionCommand::Extension);
    assert_eq!(extension_command("sh:ls:-l"), ExtensionCommand::Shell("ls".to_string()));
    assert_eq!(extension_command("open:https://x.org"), ExtensionCommand::Open("https".to_string()));
    assert_eq!(extension_command("copy:text"), ExtensionCommand::Copy("text".to_string()));
    assert_eq!(extension_command("sh"), ExtensionCommand::Shell(String::new()));
    assert_eq!(extension_command("echo a"), ExtensionCommand::ShellLine("echo a".to_string()));
}

#[test]
fn extension_activation_needs_a_named_action() {
    let item = Item::new("e", "E", "ext").with_actions(vec![
        ItemAction::new("Copy", "copy:hello").with_keep_open(),
        ItemAction::new("Empty", ""),
    ]);
    let r = extension_activation(&item, "Copy");
    assert_eq!(r.command, Some(ExtensionCommand::Copy("hello".to_string())));
    assert_eq!(r.result, ActivationResult::KeepOpen);
    let r = extension_activation(&item, "Empty");
    assert_eq!(r.command, None);
    assert_eq!(r.result, ActivationResult::Close);
    let r = extension_activation(&item, "Missing");
    assert_eq!(r.command, None);
    assert_eq!(r.result, ActivationResult::Close);
}

// ── Packs ──────────────────────────────────────────────────────

fn pack_action(name: &str, command: &str, keep_open: bool) -> PackAction {
    PackAction {
        name: name.to_string(),
        command: command.to_string(),
        description: String::new(),
        keep_open,
    }
}

fn sample_pack() -> LoadedPack {
    let mut actions = PackActions::default();
    actions.enter = Some(pack_action("Run", "sh:run", false));
    actions.alt_enter = Some(pack_action("Edit", "sh:edit", true));
    LoadedPack {
        def: PackDef {
            pack: PackMeta {
                name: "reaper".to_string(),
                version: "1".to_string(),
                author: String::new(),
                description: String::new(),
                url: String::new(),
                prefix: None,
            },
            tags: vec![],
            items: vec![
                PackItem {
                    id: "render".to_string(),
                    label: "Render".to_string(),
                    sub: "Render project".to_string(),
                    icon: "render-icon".to_string(),
                    tags: strings(&["Reaper/Actions"]),
                    search_fields: vec![],
                    pinned: true,
                    actions,
                },
                PackItem {
                    id: "save".to_string(),
                    label: "Save".to_string(),
                    sub: String::new(),
                    icon: "S".to_string(),
                    tags: vec![],
                    search_fields: strings(&["Save", "write"]),
                    pinned: false,
                    actions: PackActions::default(),
                },
            ],
            icons: vec![("render-icon".to_string(), "icons/render.svg".to_string())],
            magic_words: vec![],
            presets: vec![],
        },
        base_dir: "/packs/reaper".to_string(),
    }
}

#[test]
fn pack_items_are_built() {
    let pack = sample_pack();
    assert_eq!(pack.resolve_icon("render-icon"), Some("/packs/reaper/icons/render.svg".to_string()));
    assert_eq!(pack.resolve_icon("S"), None);
    let items = pack.to_items();
    assert_eq!(items.len(), 2);
    let a = &items[0];
    assert_eq!(a.id, "render");
    assert_eq!(a.provider, "reaper");
    assert_eq!(a.icon, "/packs/reaper/icons/render.svg");
    assert_eq!(a.search_fields, strings(&["Render"]));
    assert!(a.pinned);
    assert_eq!(a.actions.len(), 2);
    assert_eq!(a.actions[0].modifier, ActionModifier::Plain);
    assert_eq!(a.actions[1].modifier, ActionModifier::Alt);
    assert!(a.actions[1].keep_open);
    assert!(a.tags.contains(&Tag::new("reaper/actions")));
    let b = &items[1];
    assert_eq!(b.icon, "S");
    assert_eq!(b.search_fields, strings(&["Save", "write"]));
    assert_eq!(b.actions.len(), 1);
    assert_eq!(b.actions[0].name, "activate");
}

#[test]
fn pack_directory() {
    assert_eq!(default_pack_dir(None, Some("/home/u")), "/home/u/.config/dioxus-launcher/packs");
    assert_eq!(default_pack_dir(Some("/c"), None), "/c/dioxus-launcher/packs");
}

// ── Extensions ─────────────────────────────────────────────────

fn action_def(title: &str, command: &str, shortcut: &str) -> ActionDef {
    ActionDef {
        name: title.to_lowercase(),
        title: title.to_string(),
        command: command.to_string(),
        shortcut: shortcut.to_string(),
        icon: String::new(),
        keep_open: false,
    }
}

fn sample_extension(icon: &str) -> LoadedExtension {
    LoadedExtension {
        manifest: ExtensionManifest {
            extension: ExtensionMeta {
                name: "todo".to_string(),
                title: "Todo".to_string(),
                version: "1".to_string(),
                author: String::new(),
                description: String::new(),
                icon: icon.to_string(),
                url: String::new(),
                categories: vec![],
            },
            commands: vec![CommandDef {
                name: "list".to_string(),
                title: "List Todos".to_string(),
                description: "Show todos".to_string(),
                mode: "view".to_string(),
                icon: String::new(),
                keywords: strings(&["tasks"]),
                command: String::new(),
                interval: String::new(),
                preferences: vec![],
                arguments: vec![],
                actions: vec![action_def("Open", "", ""), action_def("Copy", "copy:x", "ctrl+enter")],
                items: vec![CommandItemDef {
                    id: "first".to_string(),
                    title: "First".to_string(),
                    subtitle: "the first".to_string(),
                    icon: String::new(),
                    keywords: strings(&["one"]),
                    tags: strings(&["Work/Tasks"]),
                    actions: vec![],
                    accessories: vec![],
                }],
            }],
            preferences: vec![PreferenceDef {
                name: "token".to_string(),
                title: "Token".to_string(),
                description: String::new(),
                kind: "password".to_string(),
                required: true,
                default: String::new(),
                options: vec![],
            }],
            tags: vec![ExtTagDef {
                path: "work/tasks".to_string(),
                name: "Tasks".to_string(),
                color: "#ff0000".to_string(),
            }],
            icons: vec![("logo".to_string(), "logo.png".to_string())],
        },
        base_dir: "/ext/todo".to_string(),
    }
}

#[test]
fn extension_items_are_built() {
    let ext = sample_extension("");
    let items = ext.to_items();
    assert_eq!(items.len(), 2);
    let cmd = &items[0];
    assert_eq!(cmd.id, "todo/list");
    assert_eq!(cmd.label, "List Todos");
    assert_eq!(cmd.provider, "todo");
    assert_eq!(cmd.sub, "Show todos");
    assert_eq!(cmd.icon, "T");
    assert_eq!(cmd.search_fields, strings(&["List Todos", "list", "tasks"]));
    assert_eq!(cmd.actions[0].command, "ext:todo:list");
    assert_eq!(cmd.actions[1].command, "copy:x");
    assert_eq!(cmd.actions[1].modifier, ActionModifier::Ctrl);
    assert!(cmd.tags.contains(&Tag::new("work/tasks")));
    let ci = &items[1];
    assert_eq!(ci.id, "todo/list/first");
    assert_eq!(ci.icon, "T");
    assert_eq!(ci.search_fields, strings(&["First", "one"]));
    assert_eq!(ci.actions.len(), 1);
    assert_eq!(ci.actions[0].name, "List Todos");
    assert_eq!(ci.actions[0].command, "ext:todo:list:first");
}

#[test]
fn extension_icon_resolves_through_its_table() {
    let ext = sample_extension("logo");
    assert_eq!(ext.resolve_icon("logo"), Some("/ext/todo/logo.png".to_string()));
    assert_eq!(ext.to_items()[0].icon, "/ext/todo/logo.png");
    let ext = sample_extension("★");
    assert_eq!(ext.to_items()[0].icon, "★");
}

#[test]
fn shortcut_modifiers_and_modes() {
    assert_eq!(parse_shortcut_modifier(""), ActionModifier::Plain);
    assert_eq!(parse_shortcut_modifier("Ctrl+Shift+Enter"), ActionModifier::CtrlShift);
    assert_eq!(parse_shortcut_modifier("cmd+enter"), ActionModifier::Ctrl);
    assert_eq!(parse_shortcut_modifier("opt+shift+enter"), ActionModifier::AltShift);
    assert_eq!(parse_shortcut_modifier("enter"), ActionModifier::Plain);
    assert_eq!(CommandMode::from_str("VIEW"), CommandMode::View);
    assert_eq!(CommandMode::from_str("bg"), CommandMode::Background);
    assert_eq!(CommandMode::from_str("whatever"), CommandMode::NoView);
}

#[test]
fn extension_registry_preferences_and_tags() {
    let mut reg = ExtensionRegistry::new("/p.json", vec![("todo.token".to_string(), "abc".to_string())]);
    assert_eq!(reg.prefs_path(), "/p.json");
    assert_eq!(reg.get_pref("todo", "token"), Some("abc"));
    reg.set_pref("todo", "token", "xyz");
    reg.set_pref("todo", "user", "me");
    assert_eq!(reg.get_pref("todo", "token"), Some("xyz"));
    assert_eq!(reg.get_pref("todo", "none"), None);
    assert_eq!(reg.preferences().len(), 2);
    assert!(reg.load_extension(Ok(sample_extension(""))));
    assert!(!reg.load_extension(Err("bad manifest".to_string())));
    assert_eq!(reg.extensions().len(), 1);
    assert_eq!(reg.all_items().len(), 2);
    assert_eq!(reg.pref_defs("todo").len(), 1);
    assert_eq!(reg.pref_defs("other").len(), 0);
    let mut tags = TagRegistry::new();
    reg.register_tags(&mut tags);
    let info = tags.info(&Tag::new("work/tasks")).unwrap();
    assert_eq!(info.display_name, "Tasks");
    assert_eq!(info.color, "#ff0000");
    assert_eq!(
        reg.storage_dir(None, Some("/home/u"), "todo"),
        "/home/u/.local/share/dioxus-launcher/extensions/todo"
    );
}

#[test]
fn extension_api_storage_file() {
    let api = ExtensionApi::new("todo", "/data/ext/todo");
    assert_eq!(api.extension_name(), "todo");
    assert_eq!(api.storage_dir(), "/data/ext/todo");
    assert_eq!(api.storage_file(), "/data/ext/todo/storage.json");
}

#[test]
fn extension_paths() {
    assert_eq!(default_extensions_dir(None, Some("/h")), "/h/.config/dioxus-launcher/extensions");
    assert_eq!(default_prefs_path(None, Some("/h")), "/h/.local/share/dioxus-launcher/extension-prefs.json");
}

#[test]
fn extension_items_belong_to_the_extension_and_have_actions() {
    let ext = sample_extension("");
    for item in ext.to_items() {
        assert_eq!(item.provider, "todo");
        assert!(!item.actions.is_empty());
    }
}

#[test]
fn the_last_tag_definition_of_a_path_wins() {
    let mut ext = sample_extension("");
    ext.manifest.tags.push(ExtTagDef { path: "Work/Tasks/".to_string(), name: "Jobs".to_string(), color: String::new() });
    let mut reg = ExtensionRegistry::new("/p.json", vec![]);
    assert!(reg.load_extension(Ok(ext)));
    let mut tags = TagRegistry::new();
    reg.register_tags(&mut tags);
    let info = tags.info(&Tag::new("work/tasks")).unwrap();
    assert_eq!(info.display_name, "Jobs");
    assert_eq!(info.color, "");
    assert_eq!(tags.info(&Tag::new("work")).unwrap().display_name, "work");
}

#[test]
fn desktop_keys_take_their_last_value_in_the_entry_section() {
    let text = "[Desktop Entry]\nName=First\nType=Application\nName=Second\nExec=a\n[Other]\nName=Third\nExec=b\n";
    let e = parse_desktop_entry(text, "x").unwrap();
    assert_eq!(e.name, "Second");
    assert_eq!(e.command, "a");
    assert_eq!(e.icon, "");
}
