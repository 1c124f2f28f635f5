use launcher_core::config::{default_config_path, GeneralConfig, KeybindConfig, ProviderOverride, ThemeConfig};
use launcher_core::filter::FilterState;
use launcher_core::icons::{pick_icon, IconResolver};
use launcher_core::keyed::KeyedVec;
use launcher_core::launcher::{LauncherEffect, LauncherSession, ListNotice, SearchMode};
use launcher_core::provider::{ActionModifier, Item, ItemAction};
use launcher_core::sidebar::sidebar_nodes;
use launcher_core::tags::TagRegistry;
use launcher_core::theme::Theme;
use launcher_core::text::{join_path, trim_str};
use launcher_core::ui::{
    action_infos, chip_click, decimal_string, highlight_segments, is_ancestor_collapsed,
    sidebar_click, tag_chips, toggle_collapsed, ActionBar, ChipItem, ChipStyle, DisplayItem,
    FilterAction, FilterChips, LauncherKey, LauncherMode, NotesEditor, NotesOutcome, PresetBar,
    PresetChip, QuickTag, QuickTagAction, QuickTagEvent, QuickTagOption, SearchBar, Sidebar,
    SidebarAction, SidebarEvent, SidebarNode, TextSegment, quick_tag_event, row_labels, sidebar_event,
};

fn strings(v: &[&str]) -> Vec<String> {
    v.iter().map(|s| s.to_string()).collect()
}

fn results(n: usize) -> Vec<Item> {
    (0..n).map(|i| Item::new(&format!("id{i}"), &format!("Item {i}"), "p")).collect()
}

fn key(s: &str) -> LauncherKey {
    LauncherKey::Character(s.to_string())
}

// ── Session keys ───────────────────────────────────────────────

#[test]
fn arrows_wrap_around() {
    let items = results(3);
    let mut s = LauncherSession::new();
    s.on_key(&LauncherKey::ArrowUp, false, false, false, &items);
    assert_eq!(s.selected, 2);
    s.on_key(&LauncherKey::ArrowDown, false, false, false, &items);
    assert_eq!(s.selected, 0);
    s.on_key(&LauncherKey::End, false, false, false, &items);
    assert_eq!(s.selected, 2);
    s.on_key(&LauncherKey::Home, false, false, false, &items);
    assert_eq!(s.selected, 0);
    s.on_key(&LauncherKey::ArrowDown, false, false, false, &[]);
    assert_eq!(s.selected, 0);
}

#[test]
fn page_keys_move_by_ten() {
    let items = results(25);
    let mut s = LauncherSession::new();
    s.on_key(&LauncherKey::PageDown, false, false, false, &items);
    assert_eq!(s.selected, 10);
    s.on_key(&LauncherKey::PageDown, false, false, false, &items);
    s.on_key(&LauncherKey::PageDown, false, false, false, &items);
    assert_eq!(s.selected, 24);
    s.on_key(&LauncherKey::PageUp, false, false, false, &items);
    assert_eq!(s.selected, 14);
    s.selected = 3;
    s.on_key(&LauncherKey::PageUp, false, false, false, &items);
    assert_eq!(s.selected, 0);
}

#[test]
fn escape_clears_step_by_step_then_closes() {
    let items = results(1);
    let mut s = LauncherSession::new();
    s.on_input("abc".to_string());
    s.search_mode = SearchMode::Filters;
    s.filter.toggle_include("audio");
    assert!(matches!(s.on_key(&LauncherKey::Escape, false, false, false, &items), LauncherEffect::Nothing));
    assert_eq!(s.query, "");
    s.on_key(&LauncherKey::Escape, false, false, false, &items);
    assert_eq!(s.search_mode, SearchMode::Items);
    s.on_key(&LauncherKey::Escape, false, false, false, &items);
    assert!(s.filter.is_empty());
    assert!(matches!(s.on_key(&LauncherKey::Escape, false, false, false, &items), LauncherEffect::Close));
}

#[test]
fn tab_switches_search_mode() {
    let mut s = LauncherSession::new();
    s.selected = 4;
    s.on_key(&LauncherKey::Tab, false, false, false, &[]);
    assert_eq!(s.search_mode, SearchMode::Filters);
    assert_eq!(s.selected, 0);
    assert_eq!(s.mode_label(), "Tags");
    s.on_key(&LauncherKey::Tab, false, false, false, &[]);
    assert_eq!(s.mode_label(), "Items");
}

#[test]
fn enter_picks_the_action_of_the_modifiers() {
    let item = Item::new("x", "X", "p").with_actions(vec![
        ItemAction::new("open", "a"),
        ItemAction::new("edit", "b").with_modifier(ActionModifier::Shift).with_keep_open(),
    ]);
    let items = vec![item];
    let mut s = LauncherSession::new();
    match s.on_key(&LauncherKey::Enter, false, true, false, &items) {
        LauncherEffect::Activate { index, action, keep_open } => {
            assert_eq!(index, 0);
            assert_eq!(action, "edit");
            assert!(keep_open);
        }
        other => panic!("unexpected {other:?}"),
    }
    match s.on_key(&LauncherKey::Enter, true, false, false, &items) {
        LauncherEffect::Activate { action, keep_open, .. } => {
            assert_eq!(action, "open");
            assert!(!keep_open);
        }
        other => panic!("unexpected {other:?}"),
    }
    let bare = vec![Item::new("y", "Y", "p").with_actions(vec![])];
    match s.on_key(&LauncherKey::Enter, false, false, false, &bare) {
        LauncherEffect::Activate { action, .. } => assert_eq!(action, "activate"),
        other => panic!("unexpected {other:?}"),
    }
    assert!(matches!(s.on_key(&LauncherKey::Enter, false, false, false, &[]), LauncherEffect::Nothing));
}

#[test]
fn enter_in_tag_mode_applies_the_first_tag() {
    let items = vec![Item::new("x", "X", "p").with_tags(&["audio/effects", "video"])];
    let mut s = LauncherSession::new();
    s.on_input("aud".to_string());
    s.search_mode = SearchMode::Filters;
    assert!(matches!(s.on_key(&LauncherKey::Enter, false, false, false, &items), LauncherEffect::Nothing));
    assert_eq!(s.filter.included, strings(&["audio/effects"]));
    assert_eq!(s.query, "");
    assert_eq!(s.search_mode, SearchMode::Items);
    assert_eq!(s.filter_label(), "+effects");
}

#[test]
fn ctrl_shortcuts() {
    let items = results(3);
    let mut s = LauncherSession::new();
    s.selected = 1;
    assert!(matches!(s.on_key(&key("f"), true, false, false, &items), LauncherEffect::ToggleFavorite(1)));
    assert!(matches!(s.on_key(&key("h"), true, false, false, &items), LauncherEffect::ToggleHidden(1)));
    assert!(matches!(s.on_key(&key("e"), true, false, false, &items), LauncherEffect::ExportAll));
    assert!(matches!(s.on_key(&key("r"), true, false, false, &items), LauncherEffect::RandomSelect));
    assert!(matches!(
        s.on_key(&key("3"), true, true, false, &items),
        LauncherEffect::ToggleRating { index: 1, rating: 3 }
    ));
    assert!(matches!(s.on_key(&key("7"), true, true, false, &items), LauncherEffect::Nothing));
    match s.on_key(&key("2"), true, false, false, &items) {
        LauncherEffect::Activate { index, action, keep_open } => {
            assert_eq!(index, 1);
            assert_eq!(action, "activate");
            assert!(!keep_open);
        }
        other => panic!("unexpected {other:?}"),
    }
    assert!(matches!(s.on_key(&key("9"), true, false, false, &items), LauncherEffect::Nothing));
    assert!(matches!(s.on_key(&key("f"), false, false, false, &items), LauncherEffect::Nothing));
    s.on_key(&key("t"), true, false, false, &items);
    assert!(s.show_quick_tag);
    s.on_key(&key("n"), true, false, false, &items);
    assert!(s.show_notes_editor);
}

#[test]
fn ctrl_s_saves_numbered_presets() {
    let mut s = LauncherSession::new();
    assert!(matches!(s.on_key(&key("s"), true, false, false, &[]), LauncherEffect::Nothing));
    s.filter.toggle_include("audio");
    match s.on_key(&key("s"), true, false, false, &[]) {
        LauncherEffect::SavePreset { name, filter } => {
            assert_eq!(name, "Preset 1");
            assert_eq!(filter.included, strings(&["audio"]));
        }
        other => panic!("unexpected {other:?}"),
    }
    match s.save_preset() {
        LauncherEffect::SavePreset { name, .. } => assert_eq!(name, "Preset 2"),
        other => panic!("unexpected {other:?}"),
    }
    s.on_key(&key("l"), true, false, false, &[]);
    assert!(s.filter.is_empty());
}

#[test]
fn session_helpers() {
    let mut s = LauncherSession::new();
    s.selected = 7;
    s.clamp_selection(3);
    assert_eq!(s.selected, 2);
    s.clamp_selection(0);
    assert_eq!(s.selected, 0);
    s.select_random(17, 5);
    assert_eq!(s.selected, 2);
    s.toggle_mode();
    assert_eq!(s.mode, LauncherMode::Palette);
    assert_eq!(s.mode.label(), "Palette");
    assert_eq!(s.notice(0), ListNotice::Idle);
    assert_eq!(s.notice(4), ListNotice::RecentHeader);
    s.on_input("x".to_string());
    assert_eq!(s.notice(0), ListNotice::NoResults);
    assert_eq!(s.notice(2), ListNotice::Nothing);
    s.show_quick_tag = true;
    s.selected = 5;
    assert_eq!(s.quick_tag_target(2), None);
    assert!(!s.show_quick_tag);
    s.show_notes_editor = true;
    s.selected = 1;
    assert_eq!(s.notes_target(2), Some(1));
    let mut f = FilterState::new();
    f.toggle_exclude("video/old");
    s.load_preset(Some(f));
    assert_eq!(s.filter_label(), "-old");
    s.load_preset(None);
    assert_eq!(s.filter.excluded, strings(&["video/old"]));
    s.clear_filter();
    assert!(s.filter.is_empty());
    assert!(matches!(s.on_click(1, &results(2)), LauncherEffect::Activate { index: 1, .. }));
    assert!(matches!(s.on_click(5, &results(2)), LauncherEffect::Nothing));
}

#[test]
fn sidebar_and_chip_actions_edit_the_filter() {
    let mut s = LauncherSession::new();
    s.on_sidebar(&sidebar_click("audio", false, false, false));
    assert_eq!(s.filter.included, strings(&["audio"]));
    s.on_sidebar(&sidebar_click("video", false, false, true));
    assert_eq!(s.filter.included, strings(&["audio", "video"]));
    s.on_sidebar(&sidebar_click("audio", false, true, false));
    assert_eq!(s.filter.included, strings(&["video"]));
    assert_eq!(s.filter.excluded, strings(&["audio"]));
    s.on_sidebar(&sidebar_click("audio", true, false, false));
    assert!(s.filter.excluded.is_empty());
    s.on_sidebar(&SidebarAction::SelectAll);
    assert!(s.filter.is_empty());
    s.on_filter_chip(&FilterAction::ToggleInclude("x".to_string()));
    assert_eq!(s.filter.included, strings(&["x"]));
    s.on_filter_chip(&FilterAction::Clear);
    assert!(s.filter.is_empty());
}

// ── Components ─────────────────────────────────────────────────

#[test]
fn highlighted_label_segments() {
    let segs = highlight_segments("Firefox", &[0, 3]);
    let want = vec![
        TextSegment { text: "F".to_string(), highlighted: true },
        TextSegment { text: "ir".to_string(), highlighted: false },
        TextSegment { text: "e".to_string(), highlighted: true },
        TextSegment { text: "fox".to_string(), highlighted: false },
    ];
    assert_eq!(segs, want);
    assert_eq!(
        highlight_segments("ab", &[]),
        vec![TextSegment { text: "ab".to_string(), highlighted: false }]
    );
    assert_eq!(
        highlight_segments("", &[]),
        vec![TextSegment { text: String::new(), highlighted: false }]
    );
    assert!(highlight_segments("", &[0]).is_empty());
    assert_eq!(highlight_segments("ab", &[1, 5]).len(), 2);
}

#[test]
fn display_item_shows_initials_and_tag_leaves() {
    let item = Item::new("x", "firefox", "applications")
        .with_icon("web")
        .with_tags(&["a/b", "c", "d/e/f", "g"]);
    let d = DisplayItem::from_item(&item, 4, true);
    assert_eq!(d.icon, "W");
    assert_eq!(d.icon_path, "");
    assert_eq!(d.tags, strings(&["b", "c", "f"]));
    assert!(d.is_selected);
    assert_eq!(d.index, 4);
    assert_eq!(d.action_count, 1);
    let item = Item::new("y", "ärger", "p").with_icon("/usr/share/icons/y.png");
    let d = DisplayItem::from_item(&item, 0, false);
    assert_eq!(d.icon, "Ä");
    assert_eq!(d.icon_path, "/usr/share/icons/y.png");
    let d = DisplayItem::from_item(&Item::new("z", "", "p"), 0, false);
    assert_eq!(d.icon, "#");
}

#[test]
fn action_bar_counter_and_infos() {
    assert_eq!(ActionBar(12, 2), Some("3/12".to_string()));
    assert_eq!(ActionBar(0, 0), None);
    assert_eq!(decimal_string(0), "0");
    assert_eq!(decimal_string(1_234_567), "1234567");
    let item = Item::new("x", "X", "p").with_actions(vec![
        ItemAction::new("Run", "a"),
        ItemAction::new("Edit", "b").with_modifier(ActionModifier::CtrlShift),
    ]);
    let infos = action_infos(&item);
    assert_eq!(infos.len(), 2);
    assert_eq!(infos[0].modifier_label, "\u{23CE}");
    assert_eq!(infos[1].name, "Edit");
    assert_eq!(infos[1].modifier_label, "^\u{21E7}\u{23CE}");
}

#[test]
fn search_preset_and_notes_bars() {
    let v = SearchBar("", "");
    assert!(!v.has_tag && !v.show_count);
    assert_eq!(v.placeholder, "Search...");
    let v = SearchBar("", "+audio");
    assert!(v.has_tag && v.show_count);
    assert_eq!(v.placeholder, "Filter...");
    assert!(!PresetBar(&[], false));
    assert!(PresetBar(&[], true));
    assert!(PresetBar(&[PresetChip { name: "a".to_string() }], false));
    assert_eq!(NotesEditor(&LauncherKey::Escape, false), NotesOutcome::Close);
    assert_eq!(NotesEditor(&LauncherKey::Enter, true), NotesOutcome::SaveAndClose);
    assert_eq!(NotesEditor(&LauncherKey::Enter, false), NotesOutcome::Continue);
}

#[test]
fn filter_chips_of_root_tags() {
    let mut reg = TagRegistry::new();
    reg.register("audio/effects", "Effects", "");
    reg.register("video", "Video", "");
    let mut f = FilterState::new();
    f.toggle_exclude("video");
    let chips = tag_chips(&reg, &f);
    assert_eq!(chips.len(), 2);
    let video = chips.iter().find(|c| c.id == "video").unwrap();
    assert!(video.is_excluded);
    assert!(!video.is_active);
    let view = FilterChips(&chips, true).unwrap();
    assert!(view.show_clear);
    let row = view.chips.iter().find(|r| r.id == "video").unwrap();
    assert_eq!(row.text, "-Video");
    assert_eq!(row.style, ChipStyle::Excluded);
    assert!(FilterChips(&[], true).is_none());
    let plain = ChipItem {
        id: "a".to_string(),
        label: "A".to_string(),
        icon: String::new(),
        is_active: false,
        is_excluded: false,
        color: String::new(),
    };
    assert_eq!(chip_click(&plain, false, false, false), FilterAction::ToggleInclude("a".to_string()));
    assert_eq!(chip_click(&plain, true, false, false), FilterAction::Remove("a".to_string()));
    assert_eq!(chip_click(&plain, false, false, true), FilterAction::ToggleExclude("a".to_string()));
    assert_eq!(chip_click(&video.clone(), false, false, false), FilterAction::Remove("video".to_string()));
}

fn node(id: &str, depth: usize, has_children: bool) -> SidebarNode {
    SidebarNode {
        id: id.to_string(),
        label: id.to_string(),
        icon: String::new(),
        depth,
        has_children,
        count: if depth == 0 { Some(2) } else { None },
    }
}

#[test]
fn sidebar_hides_collapsed_subtrees() {
    let nodes = vec![
        node("audio", 0, true),
        node("audio/effects", 1, true),
        node("audio/effects/delay", 2, false),
        node("video", 0, false),
    ];
    let mut collapsed: Vec<String> = Vec::new();
    toggle_collapsed(&mut collapsed, "audio/effects");
    assert!(is_ancestor_collapsed(&nodes, "audio/effects/delay", &collapsed));
    assert!(!is_ancestor_collapsed(&nodes, "audio/effects", &collapsed));
    let view = Sidebar(&nodes, Some("video"), &collapsed);
    assert!(!view.all_active);
    let rows = &view.rows;
    let ids: Vec<String> = rows.iter().map(|r| r.id.clone()).collect();
    assert_eq!(ids, strings(&["audio", "audio/effects", "video"]));
    assert!(rows[1].is_collapsed);
    assert!(rows[2].is_active);
    assert_eq!(rows[0].count_label, "2");
    toggle_collapsed(&mut collapsed, "audio/effects");
    assert!(collapsed.is_empty());
    assert_eq!(Sidebar(&nodes, None, &collapsed).rows.len(), 4);
}

#[test]
fn sidebar_all_row_and_row_clicks() {
    let nodes = vec![node("audio", 0, true), node("audio/effects", 1, false), node("video", 0, false)];
    let view = Sidebar(&nodes, None, &[]);
    assert!(view.all_active);
    assert_eq!(sidebar_event(&view, SidebarEvent::All), Some(SidebarAction::SelectAll));
    let row = |index: usize, ctrl: bool, alt: bool, shift: bool| SidebarEvent::Row { index, ctrl, alt, shift };
    assert_eq!(sidebar_event(&view, row(0, false, false, false)), Some(SidebarAction::Select("audio".to_string())));
    assert_eq!(
        sidebar_event(&view, row(1, false, true, true)),
        Some(SidebarAction::AddExclude("audio/effects".to_string()))
    );
    assert_eq!(sidebar_event(&view, row(2, false, false, true)), Some(SidebarAction::AddInclude("video".to_string())));
    assert_eq!(sidebar_event(&view, row(2, true, true, true)), Some(SidebarAction::Remove("video".to_string())));
    assert_eq!(sidebar_event(&view, row(3, false, false, false)), None);
    assert!(!Sidebar(&nodes, Some("audio"), &[]).all_active);
}

#[test]
fn sidebar_nodes_of_a_registry() {
    let mut reg = TagRegistry::new();
    reg.register("audio/effects/reverb", "Reverb", "");
    reg.register("audio/effects/delay", "Delay", "");
    reg.register("video", "Video", "");
    let nodes = sidebar_nodes(&reg);
    let got: Vec<(String, usize)> = nodes.iter().map(|n| (n.id.clone(), n.depth)).collect();
    let want: Vec<(String, usize)> = vec![
        ("video".to_string(), 0),
        ("audio".to_string(), 0),
        ("audio/effects".to_string(), 1),
        ("audio/effects/delay".to_string(), 2),
        ("audio/effects/reverb".to_string(), 2),
    ];
    assert_eq!(got, want);
    assert!(nodes[1].has_children);
    assert!(!nodes[0].has_children);
}

#[test]
fn quick_tag_rows_match_case_insensitively() {
    let opts: Vec<QuickTagOption> = (0..20)
        .map(|i| QuickTagOption {
            path: format!("group/tag{i}"),
            label: format!("Tag {i}"),
            color: String::new(),
        })
        .collect();
    let rows = QuickTag(&strings(&["group/tag1"]), &opts, "");
    assert_eq!(rows.len(), 15);
    assert!(rows[1].is_assigned);
    assert!(!rows[0].is_assigned);
    let rows = QuickTag(&[], &opts, "TAG 1");
    let labels: Vec<String> = rows.iter().map(|r| r.label.clone()).collect();
    assert_eq!(
        labels,
        strings(&["Tag 1", "Tag 10", "Tag 11", "Tag 12", "Tag 13", "Tag 14", "Tag 15", "Tag 16", "Tag 17", "Tag 18", "Tag 19"])
    );
}

#[test]
fn quick_tag_events_add_remove_and_close() {
    let opts: Vec<QuickTagOption> = ["audio", "audio/fx", "video"]
        .iter()
        .map(|p| QuickTagOption { path: p.to_string(), label: p.to_string(), color: String::new() })
        .collect();
    let rows = QuickTag(&[], &opts, "fx");
    assert_eq!(quick_tag_event(&rows, &QuickTagEvent::Enter), QuickTagAction::Add("audio/fx".to_string()));
    let rows = QuickTag(&[], &opts, "");
    assert_eq!(quick_tag_event(&rows, &QuickTagEvent::Enter), QuickTagAction::Add("audio".to_string()));
    assert_eq!(quick_tag_event(&rows, &QuickTagEvent::ClickOption(2)), QuickTagAction::Add("video".to_string()));
    assert_eq!(quick_tag_event(&rows, &QuickTagEvent::ClickOption(3)), QuickTagAction::Nothing);
    assert_eq!(
        quick_tag_event(&rows, &QuickTagEvent::ClickCurrent("old".to_string())),
        QuickTagAction::Remove("old".to_string())
    );
    assert_eq!(quick_tag_event(&rows, &QuickTagEvent::Escape), QuickTagAction::Close);
    assert_eq!(quick_tag_event(&rows, &QuickTagEvent::Backdrop), QuickTagAction::Close);
    let none = QuickTag(&[], &opts, "zzz");
    assert!(none.is_empty());
    assert_eq!(quick_tag_event(&none, &QuickTagEvent::Enter), QuickTagAction::Nothing);
}

// ── Theme, configuration, icons, text ──────────────────────────

#[test]
fn themes_and_stylesheet() {
    let dark = Theme::dark();
    assert_eq!(dark.name, "dark");
    assert_eq!(dark.bg_primary, "#1e1e2e");
    let light = Theme::light();
    assert_eq!(light.name, "light");
    let css = dark.to_css_variables();
    assert!(css.starts_with(":root {\n  --bg-primary: #1e1e2e;\n  --bg-secondary: #313244;\n"));
    assert!(css.ends_with("}"));
    let mut custom = Theme::default();
    custom.custom_css = ".x { color: red; }".to_string();
    let sheet = custom.to_stylesheet();
    assert!(sheet.starts_with(&css));
    assert!(sheet.ends_with("\n\n/* Custom overrides */\n.x { color: red; }"));
    assert!(!Theme::dark().to_stylesheet().contains("Custom overrides"));
}

#[test]
fn configuration_defaults() {
    let g = GeneralConfig::default();
    assert_eq!(g.max_results, 50);
    assert_eq!(g.default_mode, "full");
    assert!(g.show_sidebar && g.show_chips && g.show_action_bar);
    assert_eq!(ThemeConfig::default().name, "dark");
    let k = KeybindConfig::default();
    assert_eq!(k.activate, "Enter");
    assert_eq!(k.escape, "Escape");
    let p = ProviderOverride::default();
    assert!(!p.disabled && p.prefix.is_none());
    assert_eq!(default_config_path(None, Some("/h")), "/h/.config/dioxus-launcher/config.toml");
}

#[test]
fn icon_candidates_and_resolution() {
    let mut r = IconResolver::new(Some("/home/u"), Some("/a:/b"));
    let c = r.theme_candidates("firefox");
    assert_eq!(c.len(), 4 * 381 + 3);
    assert_eq!(c[0], "/home/u/.local/share/icons/hicolor/256x256/apps/firefox.svg");
    assert_eq!(c[c.len() - 1], "/usr/share/pixmaps/firefox.xpm");
    assert_eq!(r.resolve(""), None);
    r.register("x", "/");
    assert_eq!(r.resolve("x"), Some("/".to_string()));
    assert_eq!(r.resolve("/"), Some("/".to_string()));
    assert_eq!(r.resolve("/no/such/file/here.png"), None);
    assert_eq!(r.cache_stats(), (2, 3));
}

#[test]
fn pick_icon_takes_the_first_existing_candidate() {
    let c = strings(&["/a", "/b", "/c"]);
    assert_eq!(pick_icon(&c, &[false, true, true]), Some("/b".to_string()));
    assert_eq!(pick_icon(&c, &[true, true, true]), Some("/a".to_string()));
    assert_eq!(pick_icon(&c, &[false, false, false]), None);
    assert_eq!(pick_icon(&c, &[false]), None);
}

#[test]
fn icon_candidates_in_order_custom_absolute_theme() {
    let mut r = IconResolver::new(None, Some("/d"));
    r.register("/abs.png", "/custom.png");
    let c = r.candidates("/abs.png");
    assert_eq!(c.len(), 2 + 381 + 3);
    assert_eq!(c[0], "/custom.png");
    assert_eq!(c[1], "/abs.png");
    let c = r.candidates("fx");
    assert_eq!(c.len(), 381 + 3);
    assert_eq!(c[1], "/d/icons/hicolor/256x256/apps/fx.png");
    assert_eq!(r.resolve_with("", &[true]), None);
    assert_eq!(r.resolve_with("/abs.png", &[false, true]), Some("/abs.png".to_string()));
    assert_eq!(r.resolve_with("/abs.png", &[true]), Some("/abs.png".to_string()));
    assert_eq!(r.resolve_with("fx", &[false, true]), Some("/d/icons/hicolor/256x256/apps/fx.png".to_string()));
    assert_eq!(r.resolve_with("gone", &[false, false]), None);
    assert_eq!(r.cache_stats(), (2, 3));
}

#[test]
fn text_helpers() {
    assert_eq!(join_path("/a", "b"), "/a/b");
    assert_eq!(join_path("/a/", "b"), "/a/b");
    assert_eq!(join_path("/a", "/b"), "/b");
    assert_eq!(join_path("", "b"), "b");
    assert_eq!(trim_str("  a b \t"), "a b");
}

#[test]
fn down_then_up_returns_to_the_same_result() {
    let items = results(4);
    let mut s = LauncherSession::new();
    for start in 0..4 {
        s.selected = start;
        s.on_key(&LauncherKey::ArrowDown, false, false, false, &items);
        s.on_key(&LauncherKey::ArrowUp, false, false, false, &items);
        assert_eq!(s.selected, start);
    }
}

#[test]
fn resolved_icons_are_cached() {
    let mut r = IconResolver::new(None, Some("/nonexistent-dir"));
    r.register("root", "/");
    assert_eq!(r.resolve("root"), Some("/".to_string()));
    r.register("root", "/no/such/place");
    assert_eq!(r.resolve("root"), Some("/".to_string()));
    assert_eq!(r.cache_stats(), (1, 1));
}

#[test]
fn keyed_store_insert_get_remove() {
    let mut k: KeyedVec<u32> = KeyedVec::new();
    k.insert("b".to_string(), 1);
    k.insert("a".to_string(), 2);
    k.insert("b".to_string(), 3);
    assert_eq!(k.len(), 2);
    assert_eq!(k.get("b"), Some(&3));
    assert_eq!(k.key_at(0), "b");
    k.remove("b");
    assert_eq!(k.get("b"), None);
    assert_eq!(k.get("a"), Some(&2));
}

#[test]
fn highlight_segments_cover_the_label() {
    for (label, positions) in [("ReaVerbate", vec![0u32, 3, 4, 9]), ("abc", vec![1]), ("abc", vec![]), ("ab", vec![5])] {
        let segs = highlight_segments(label, &positions);
        let joined: String = segs.iter().map(|s| s.text.as_str()).collect();
        assert_eq!(joined, label);
        assert!(segs.iter().all(|s| !s.text.is_empty()));
    }
}

#[test]
fn css_variables_ignore_name_and_custom_css() {
    let a = Theme::dark();
    let mut b = Theme::dark();
    b.name = "other".to_string();
    b.custom_css = "body { color: red; }".to_string();
    assert_eq!(a.to_css_variables(), b.to_css_variables());
    assert!(a.to_css_variables().starts_with(":root {\n  --bg-primary: "));
}

#[test]
fn result_row_labels() {
    let mut item = Item::new("x", "Label", "p");
    item.actions = vec![ItemAction::default(), ItemAction::default(), ItemAction::default()];
    let mut d = DisplayItem::from_item(&item, 0, true);
    d.rating = 3;
    d.is_favorite = true;
    let l = row_labels(&d);
    assert_eq!(l.shortcut, "\u{2318}1");
    assert_eq!(l.extra_actions, Some("+2".to_string()));
    assert_eq!(l.rating_stars, "\u{2605}\u{2605}\u{2605}");
    assert_eq!(l.favorite_mark, "\u{2605}");
    let mut d = DisplayItem::from_item(&Item::new("y", "Y", "p"), 9, false);
    d.action_count = 0;
    let l = row_labels(&d);
    assert_eq!(l.shortcut, "");
    assert_eq!(l.extra_actions, None);
    assert_eq!(l.rating_stars, "");
    assert_eq!(l.favorite_mark, "");
}

#[test]
fn highlighted_segments_are_the_matched_characters() {
    let segs = highlight_segments("abcdef", &[1, 2, 4, 9]);
    let marked: Vec<&str> = segs.iter().filter(|s| s.highlighted).map(|s| s.text.as_str()).collect();
    assert_eq!(marked, vec!["b", "c", "e"]);
    for w in segs.windows(2) {
        assert!(w[0].highlighted || w[1].highlighted);
    }
}
