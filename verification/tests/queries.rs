use launcher_core::demo::demo_items;
use launcher_core::filter::{FilterPresets, FilterState, MagicWords};
use launcher_core::matching::{exact_hit, find_sub, fuzzy_field_matches};
use launcher_core::provider::Item;
use launcher_core::query::{
    adopt_provider_items, apply_user_data, check_magic_word, exact_query, mark_all_seen_at,
    parse_prefix, parse_tag_filter, plan_query, retain_filtered, retain_tagged, score_mode,
    ScoreMode,
};
use launcher_core::tags::{Tag, TagRegistry, TagSet};
use launcher_core::userdata::UserDataStore;

fn strings(v: &[&str]) -> Vec<String> {
    v.iter().map(|s| s.to_string()).collect()
}

fn tag_paths(t: &TagSet) -> Vec<String> {
    t.tags().iter().map(|t| t.path().to_string()).collect()
}

fn prefixes() -> Vec<(String, Option<char>)> {
    vec![
        ("applications".to_string(), Some('a')),
        ("demo".to_string(), Some('d')),
        ("calc".to_string(), Some('=')),
        ("apps2".to_string(), Some('a')),
        ("workflow".to_string(), None),
    ]
}

#[test]
fn inline_tag_with_rest() {
    let mut reg = TagRegistry::new();
    reg.alias("fx", "audio/effects");
    let (tag, rest) = parse_tag_filter(&reg, "#fx   warm");
    assert_eq!(tag.unwrap().path(), "audio/effects");
    assert_eq!(rest, Some("warm".to_string()));
    let (tag, rest) = parse_tag_filter(&reg, "#Video/Editors");
    assert_eq!(tag.unwrap().path(), "video/editors");
    assert_eq!(rest, None);
    let (tag, rest) = parse_tag_filter(&reg, "# x");
    assert!(tag.is_none());
    assert!(rest.is_none());
    let (tag, rest) = parse_tag_filter(&reg, "plain");
    assert!(tag.is_none());
    assert!(rest.is_none());
    let (tag, rest) = parse_tag_filter(&reg, "#fx ");
    assert_eq!(tag.unwrap().path(), "audio/effects");
    assert_eq!(rest, None);
}

#[test]
fn provider_prefix_selects_providers() {
    let (targets, rest) = parse_prefix("a  firefox", &prefixes());
    assert_eq!(targets, Some(strings(&["applications", "apps2"])));
    assert_eq!(rest, "firefox");
    let (targets, rest) = parse_prefix("x firefox", &prefixes());
    assert_eq!(targets, None);
    assert_eq!(rest, "x firefox");
    let (targets, rest) = parse_prefix("ab", &prefixes());
    assert_eq!(targets, None);
    assert_eq!(rest, "ab");
    let (targets, rest) = parse_prefix("= 1+2", &prefixes());
    assert_eq!(targets, Some(strings(&["calc"])));
    assert_eq!(rest, "1+2");
}

#[test]
fn quote_asks_for_exact_matching() {
    assert_eq!(exact_query("''fire"), (true, "fire".to_string()));
    assert_eq!(exact_query("fire'"), (false, "fire'".to_string()));
    assert_eq!(exact_query(""), (false, String::new()));
}

#[test]
fn magic_word_loads_its_preset() {
    let mut words = MagicWords::default();
    words.add("fx", "effects");
    words.add("nope", "missing");
    let mut presets = FilterPresets::default();
    let mut f = FilterState::new();
    f.toggle_include("audio/effects");
    presets.add("effects", f);
    let (state, rest) = check_magic_word(&words, &presets, "FX warm").unwrap();
    assert_eq!(state.included, strings(&["audio/effects"]));
    assert_eq!(rest, "warm");
    assert!(check_magic_word(&words, &presets, "nope x").is_none());
    assert!(check_magic_word(&words, &presets, "other").is_none());
}

#[test]
fn plan_of_a_full_query() {
    let mut reg = TagRegistry::new();
    reg.alias("fx", "audio/effects");
    let mut words = MagicWords::default();
    words.add("mix", "mixing");
    let mut presets = FilterPresets::default();
    let mut f = FilterState::new();
    f.toggle_include("audio");
    presets.add("mixing", f);
    let given = FilterState::new();

    let plan = plan_query(&reg, &words, &presets, &prefixes(), "  mix #fx d 'reverb  ", &given)
        .unwrap();
    assert_eq!(plan.filter.included, strings(&["audio"]));
    assert_eq!(plan.tag_filter.as_ref().unwrap().path(), "audio/effects");
    assert_eq!(plan.targets, Some(strings(&["demo"])));
    assert_eq!(plan.query, "reverb");
    assert!(plan.exact);
    assert!(plan.asks("demo"));
    assert!(!plan.asks("applications"));

    let plan = plan_query(&reg, &words, &presets, &prefixes(), "firefox", &given).unwrap();
    assert!(plan.filter.is_empty());
    assert!(plan.tag_filter.is_none());
    assert_eq!(plan.targets, None);
    assert_eq!(plan.query, "firefox");
    assert!(!plan.exact);
    assert!(plan.asks("anything"));

    // A tag with nothing after it leaves the whole text as the query.
    let plan = plan_query(&reg, &words, &presets, &prefixes(), "#fx", &given).unwrap();
    assert_eq!(plan.tag_filter.unwrap().path(), "audio/effects");
    assert_eq!(plan.query, "#fx");
}

#[test]
fn plan_with_provider_filter() {
    let reg = TagRegistry::new();
    let words = MagicWords::default();
    let presets = FilterPresets::default();
    let mut given = FilterState::new();
    given.provider = Some("demo".to_string());
    let plan = plan_query(&reg, &words, &presets, &prefixes(), "a x", &given).unwrap();
    assert!(!plan.asks("demo"));
    assert!(!plan.asks("applications"));
    let plan = plan_query(&reg, &words, &presets, &prefixes(), "x", &given).unwrap();
    assert!(plan.asks("demo"));
    assert!(!plan.asks("calc"));
}

#[test]
fn plan_refuses_a_cut_inside_a_character() {
    let reg = TagRegistry::new();
    let words = MagicWords::default();
    let presets = FilterPresets::default();
    let given = FilterState::new();
    let p = vec![("wide".to_string(), Some('€'))];
    assert!(plan_query(&reg, &words, &presets, &p, "€ x", &given).is_none());
    let p = vec![("narrow".to_string(), Some('é'))];
    let plan = plan_query(&reg, &words, &presets, &p, "é x", &given).unwrap();
    assert_eq!(plan.targets, Some(strings(&["narrow"])));
    assert_eq!(plan.query, "x");
}

#[test]
fn provider_items_get_defaults() {
    let items = vec![
        Item::new("1", "One", ""),
        Item::new("2", "Two", "mine").with_tags(&["own"]),
        Item::new("3", "Three", ""),
    ];
    let adopted = adopt_provider_items(&items, "demo", 2, &strings(&["Default/Tag"]));
    assert_eq!(adopted.len(), 2);
    assert_eq!(adopted[0].provider, "demo");
    assert_eq!(tag_paths(&adopted[0].tags), strings(&["default/tag"]));
    assert_eq!(adopted[1].provider, "mine");
    assert_eq!(tag_paths(&adopted[1].tags), strings(&["own"]));
    let none = adopt_provider_items(&items, "demo", 10, &[]);
    assert_eq!(none.len(), 3);
    assert!(none[0].tags.is_empty());
}

#[test]
fn user_data_hides_and_tags() {
    let items = vec![Item::new("1", "One", "p"), Item::new("2", "Two", "p").with_tags(&["a"])];
    let mut ud = UserDataStore::new();
    ud.set_hidden("1", true);
    ud.add_tag("2", "B/C");
    ud.add_tag("2", "a");
    let r = apply_user_data(&items, &ud);
    assert_eq!(r.len(), 1);
    assert_eq!(r[0].id, "2");
    assert_eq!(tag_paths(&r[0].tags), strings(&["a", "b/c"]));
}

#[test]
fn tag_and_filter_retention() {
    let items = vec![
        Item::new("1", "One", "p").with_tags(&["audio/effects/reverb"]),
        Item::new("2", "Two", "p").with_tags(&["video"]),
        Item::new("3", "Three", "p").with_tags(&["audio/instruments"]),
    ];
    let kept = retain_tagged(&items, &Tag::new("audio"));
    assert_eq!(kept.iter().map(|i| i.id.clone()).collect::<Vec<_>>(), strings(&["1", "3"]));
    let mut f = FilterState::new();
    f.toggle_include("audio");
    f.toggle_exclude("audio/effects");
    let kept = retain_filtered(&items, &f);
    assert_eq!(kept.iter().map(|i| i.id.clone()).collect::<Vec<_>>(), strings(&["3"]));
    assert_eq!(retain_filtered(&items, &FilterState::new()).len(), 3);
}

#[test]
fn score_mode_choices() {
    let empty = FilterState::new();
    let mut inc = FilterState::new();
    inc.toggle_include("a");
    assert_eq!(score_mode("", false, &empty, false), ScoreMode::Unscored);
    assert_eq!(score_mode("", false, &empty, true), ScoreMode::Unscored);
    assert_eq!(score_mode("", true, &empty, true), ScoreMode::Exact);
    assert_eq!(score_mode("", true, &empty, false), ScoreMode::Unscored);
    assert_eq!(score_mode("", false, &inc, false), ScoreMode::Unscored);
    assert_eq!(score_mode("fi", false, &empty, false), ScoreMode::Fuzzy);
    assert_eq!(score_mode("fi", false, &empty, true), ScoreMode::Exact);
}

#[test]
fn all_items_are_marked_seen() {
    let items = vec![Item::new("1", "One", "p"), Item::new("2", "Two", "p")];
    let mut ud = UserDataStore::new();
    ud.mark_seen_at("1", 5);
    mark_all_seen_at(&mut ud, &items, 50);
    assert!(ud.is_new_since("1", 4));
    assert!(!ud.is_new_since("1", 5));
    assert!(ud.is_new_since("2", 49));
}

#[test]
fn exact_hits_are_found_lowercased() {
    let fields = strings(&["Firefox", "Web Browser"]);
    assert_eq!(exact_hit(&fields, "FOX"), Some((0, 4)));
    assert_eq!(exact_hit(&fields, "browser"), Some((1, 4)));
    assert_eq!(exact_hit(&fields, "chrome"), None);
    assert_eq!(exact_hit(&[], "x"), None);
    assert_eq!(find_sub(b"abcabc", b"ca"), Some(2));
    assert_eq!(find_sub(b"abc", b"abcd"), None);
    assert_eq!(find_sub(b"abc", b""), Some(0));
}

#[test]
fn demo_items_cover_several_categories() {
    let items = demo_items();
    assert_eq!(items.len(), 15);
    assert_eq!(items[0].id, "demo-reverb");
    assert_eq!(items[0].label, "ReaVerbate");
    assert_eq!(items[14].id, "demo-track-vocals");
    assert!(items.iter().all(|i| i.provider == "demo"));
    assert_eq!(
        tag_paths(&items[5].tags),
        strings(&["audio/instruments/synth", "audio/effects/plugin/vst3"])
    );
    assert_eq!(items[9].search_fields, strings(&["Render Project", "render", "bounce", "export"]));
}

#[test]
fn fuzzy_matches_field_by_field() {
    let fields = vec!["Firefox".to_string(), "web".to_string(), "ffx".to_string()];
    let m = fuzzy_field_matches(&fields, "ffx");
    assert_eq!(m.len(), 3);
    let (s0, p0) = m[0].clone().unwrap();
    assert_eq!(p0, vec![0, 4, 6]);
    assert!(m[1].is_none());
    let (s2, p2) = m[2].clone().unwrap();
    assert_eq!(p2, vec![0, 1, 2]);
    assert!(s2 > s0);
    assert!(fuzzy_field_matches(&[], "x").is_empty());
}
