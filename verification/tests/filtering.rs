use launcher_core::filter::{
    default_presets_path, FilterMode, FilterPresets, FilterState, MagicWords,
};
use launcher_core::tags::TagSet;

fn strings(v: &[&str]) -> Vec<String> {
    v.iter().map(|s| s.to_string()).collect()
}

#[test]
fn empty_filter_lets_everything_through() {
    let f = FilterState::new();
    assert!(f.is_empty());
    assert!(f.matches(&TagSet::from_strs(&["audio/effects"])));
    assert!(f.matches(&TagSet::new()));
}

#[test]
fn include_is_any_exclude_is_none() {
    let mut f = FilterState::new();
    f.toggle_include("audio");
    f.toggle_include("video");
    f.toggle_exclude("audio/effects/plugin");
    assert!(f.matches(&TagSet::from_strs(&["audio/instruments/synth"])));
    assert!(f.matches(&TagSet::from_strs(&["video/editors"])));
    assert!(!f.matches(&TagSet::from_strs(&["reaper/tracks"])));
    assert!(!f.matches(&TagSet::from_strs(&["audio/effects/plugin/vst"])));
    assert!(!f.matches(&TagSet::new()));
}

#[test]
fn toggle_include_moves_tag_out_of_excludes() {
    let mut f = FilterState::new();
    f.toggle_exclude("audio");
    assert_eq!(f.excluded, strings(&["audio"]));
    f.toggle_include("audio");
    assert_eq!(f.included, strings(&["audio"]));
    assert!(f.excluded.is_empty());
    f.toggle_include("audio");
    assert!(f.included.is_empty());
    assert!(f.is_empty());
}

#[test]
fn toggle_exclude_moves_tag_out_of_includes() {
    let mut f = FilterState::new();
    f.toggle_include("video");
    f.toggle_exclude("video");
    assert!(f.included.is_empty());
    assert_eq!(f.excluded, strings(&["video"]));
    f.toggle_exclude("video");
    assert!(f.excluded.is_empty());
}

#[test]
fn remove_tag_and_clear() {
    let mut f = FilterState::new();
    f.toggle_include("a");
    f.toggle_exclude("b");
    f.provider = Some("demo".to_string());
    assert!(!f.is_empty());
    f.remove_tag("a");
    assert!(f.included.is_empty());
    assert_eq!(f.excluded, strings(&["b"]));
    f.clear();
    assert!(f.is_empty());
    assert_eq!(f.provider, None);
}

#[test]
fn active_labels_list_includes_then_excludes() {
    let mut f = FilterState::new();
    f.toggle_exclude("x");
    f.toggle_include("a");
    f.toggle_include("b");
    let labels = f.active_labels();
    assert_eq!(labels.len(), 3);
    assert_eq!(labels[0].tag, "a");
    assert_eq!(labels[0].mode, FilterMode::Include);
    assert_eq!(labels[1].tag, "b");
    assert_eq!(labels[2].tag, "x");
    assert_eq!(labels[2].mode, FilterMode::Exclude);
}

#[test]
fn presets_replace_by_name() {
    let mut presets = FilterPresets::default();
    let mut f = FilterState::new();
    f.toggle_include("audio");
    presets.add("sound", f.clone());
    presets.add("other", FilterState::new());
    let mut g = FilterState::new();
    g.toggle_include("video");
    presets.add("sound", g);
    let list = presets.list();
    assert_eq!(list.len(), 2);
    assert_eq!(list[0].name, "other");
    assert_eq!(list[1].name, "sound");
    assert_eq!(presets.get("sound").unwrap().state.included, strings(&["video"]));
    presets.remove("sound");
    assert!(presets.get("sound").is_none());
    assert_eq!(presets.list().len(), 1);
}

#[test]
fn magic_word_with_rest() {
    let mut words = MagicWords::default();
    words.add("Synths", "synth-preset");
    assert_eq!(words.list()[0].keyword, "synths");
    assert_eq!(words.check("SYNTHS warm pad"), Some(("synth-preset", "warm pad")));
    assert_eq!(words.check("synths"), Some(("synth-preset", "")));
    assert_eq!(words.check("synthsx"), None);
    assert_eq!(words.check("pad"), None);
}

#[test]
fn magic_word_replaced_and_removed() {
    let mut words = MagicWords::default();
    words.add("fx", "one");
    words.add("FX", "two");
    assert_eq!(words.list().len(), 1);
    assert_eq!(words.check("fx reverb"), Some(("two", "reverb")));
    words.remove("Fx");
    assert!(words.list().is_empty());
    assert_eq!(words.check("fx reverb"), None);
}

#[test]
fn magic_word_cut_must_be_on_a_boundary() {
    let mut words = MagicWords::default();
    words.add("ǅ", "p");
    // The keyword is stored lower-cased; the query is cut after it and a space.
    assert!(words.can_check("ǆ rest"));
    assert_eq!(words.try_check("ǆ rest"), Some(Some(("p", "rest"))));
    let mut words2 = MagicWords::default();
    words2.add("k", "p");
    // 'K' (Kelvin sign, three bytes) lower-cases to 'k' (one byte).
    assert!(!words2.can_check("\u{212A} rest"));
    assert_eq!(words2.try_check("\u{212A} rest"), None);
}

#[test]
fn presets_path_from_environment() {
    assert_eq!(
        default_presets_path(Some("/data"), Some("/home/u")),
        "/data/dioxus-launcher/filter-presets.json"
    );
    assert_eq!(
        default_presets_path(None, Some("/home/u")),
        "/home/u/.local/share/dioxus-launcher/filter-presets.json"
    );
    assert_eq!(default_presets_path(None, None), "./.local/share/dioxus-launcher/filter-presets.json");
}

#[test]
fn magic_word_c_space_loads_compressor_preset() {
    let mut words = MagicWords::default();
    words.add("C", "compressor");
    assert_eq!(words.check("c "), Some(("compressor", "")));
    assert_eq!(words.check("C glue"), Some(("compressor", "glue")));
}

#[test]
fn toggles_never_leave_a_tag_in_both_lists() {
    let mut f = FilterState::new();
    f.toggle_include("audio");
    f.toggle_exclude("audio");
    assert_eq!(f.excluded, vec!["audio".to_string()]);
    assert!(f.included.is_empty());
    f.toggle_include("audio");
    assert_eq!(f.included, vec!["audio".to_string()]);
    assert!(f.excluded.is_empty());
    f.toggle_exclude("video");
    f.toggle_include("video");
    assert!(f.included.iter().all(|t| !f.excluded.contains(t)));
}
