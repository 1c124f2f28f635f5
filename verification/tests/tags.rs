use launcher_core::tags::{Tag, TagRegistry, TagSet};

#[test]
fn tag_hierarchy() {
    let tag = Tag::new("audio/effects/reverb");
    assert_eq!(tag.path(), "audio/effects/reverb");
    assert_eq!(tag.depth(), 3);
    assert_eq!(tag.leaf(), "reverb");
    assert_eq!(tag.parent().unwrap().path(), "audio/effects");

    let ancestors = tag.ancestors();
    assert_eq!(ancestors.len(), 2);
    assert_eq!(ancestors[0].path(), "audio/effects");
    assert_eq!(ancestors[1].path(), "audio");
}

#[test]
fn tag_is_under() {
    let reverb = Tag::new("audio/effects/reverb");
    let effects = Tag::new("audio/effects");
    let audio = Tag::new("audio");
    let video = Tag::new("video");

    assert!(reverb.is_under(&effects));
    assert!(reverb.is_under(&audio));
    assert!(reverb.is_under(&reverb));
    assert!(!reverb.is_under(&video));
    assert!(!effects.is_under(&reverb));
}

#[test]
fn tag_normalization() {
    let tag = Tag::new("Audio/Effects//Reverb/");
    assert_eq!(tag.path(), "audio/effects/reverb");
}

#[test]
fn registry_aliases() {
    let mut reg = TagRegistry::new();
    reg.register("audio/effects", "Effects", "Audio effects");
    reg.alias("fx", "audio/effects");
    reg.alias("vst", "audio/effects/plugin/vst");

    let resolved = reg.resolve("fx");
    assert_eq!(resolved.path(), "audio/effects");

    let resolved = reg.resolve("vst");
    assert_eq!(resolved.path(), "audio/effects/plugin/vst");

    // Unknown alias returns as-is
    let resolved = reg.resolve("unknown");
    assert_eq!(resolved.path(), "unknown");
}

#[test]
fn tagset_filtering() {
    let tags = TagSet::from_strs(&["audio/effects/reverb", "reaper/fx-chain"]);
    let filter_effects = Tag::new("audio/effects");
    let filter_audio = Tag::new("audio");
    let filter_video = Tag::new("video");

    assert!(tags.matches(&filter_effects));
    assert!(tags.matches(&filter_audio));
    assert!(!tags.matches(&filter_video));
}

#[test]
fn registry_children() {
    let mut reg = TagRegistry::new();
    reg.register("audio/effects/reverb", "Reverb", "Reverb effects");
    reg.register("audio/effects/delay", "Delay", "Delay effects");
    reg.register("audio/instruments/synth", "Synth", "Synthesizers");

    let audio = Tag::new("audio");
    let children = reg.children_of(&audio);
    assert_eq!(children.len(), 2); // effects, instruments

    let effects = Tag::new("audio/effects");
    let children = reg.children_of(&effects);
    assert_eq!(children.len(), 2); // reverb, delay
}

#[test]
fn under_exactly_when_equal_or_ancestor() {
    let t = Tag::new("audio/effects/reverb");
    for other in ["audio/effects/reverb", "audio/effects", "audio"] {
        let o = Tag::new(other);
        assert!(t.is_under(&o));
        assert!(o == t || t.ancestors().contains(&o));
    }
    let book = Tag::new("audiobook");
    assert!(!book.is_under(&Tag::new("audio")));
    assert!(!book.ancestors().contains(&Tag::new("audio")));
}

#[test]
fn register_keeps_ancestor_metadata_and_adds_missing_ancestors() {
    let mut reg = TagRegistry::new();
    reg.register("audio", "Audio Stuff", "all audio");
    reg.register("audio/effects/reverb", "Reverb", "");
    assert_eq!(reg.info(&Tag::new("audio")).unwrap().display_name, "Audio Stuff");
    assert_eq!(reg.info(&Tag::new("audio/effects")).unwrap().display_name, "effects");
    assert_eq!(reg.info(&Tag::new("audio/effects/reverb")).unwrap().display_name, "Reverb");
    assert_eq!(reg.all_tags().len(), 3);
}

#[test]
fn register_full_and_set_color() {
    let mut reg = TagRegistry::new();
    reg.register_full("a/b", "B", "d", "icon.png", "#123456");
    let b = reg.info(&Tag::new("a/b")).unwrap();
    assert_eq!((b.icon.as_str(), b.color.as_str()), ("icon.png", "#123456"));
    assert_eq!(reg.info(&Tag::new("a")).unwrap().color, "");
    reg.set_color("nope", "#ffffff");
    assert!(reg.info(&Tag::new("nope")).is_none());
    assert_eq!(reg.all_tags().len(), 2);
    reg.set_color("A", "#000000");
    assert_eq!(reg.info(&Tag::new("a")).unwrap().color, "#000000");
    assert_eq!(reg.info(&Tag::new("a")).unwrap().display_name, "a");
}

#[test]
fn alias_resolves_every_case_variant_only() {
    let mut reg = TagRegistry::new();
    reg.alias("FX", "audio/effects");
    for x in ["fx", "Fx", "FX"] {
        assert_eq!(reg.resolve(x), Tag::new("audio/effects"));
    }
    assert_eq!(reg.resolve("fxx"), Tag::new("fxx"));
    assert!(reg.all_tags().is_empty());
}

#[test]
fn rename_merge_and_remove_keep_other_tags() {
    let mut reg = TagRegistry::new();
    reg.register("a/x", "X", "");
    reg.register("b", "B", "");
    assert!(reg.rename_tag("a/x", "a/y"));
    assert!(reg.info(&Tag::new("a/x")).is_none());
    assert_eq!(reg.info(&Tag::new("a/y")).unwrap().display_name, "X");
    assert_eq!(reg.info(&Tag::new("b")).unwrap().display_name, "B");
    assert!(reg.merge_tag("a/y", "b").is_some());
    assert!(reg.info(&Tag::new("a/y")).is_none());
    assert_eq!(reg.info(&Tag::new("a")).unwrap().display_name, "a");
    reg.register("a/z/w", "W", "");
    reg.remove_tag("a");
    assert!(reg.info(&Tag::new("a/z/w")).is_none());
    assert!(reg.info(&Tag::new("a")).is_none());
    assert_eq!(reg.info(&Tag::new("b")).unwrap().display_name, "B");
}

#[test]
fn normalizing_twice_is_normalizing_once() {
    for s in ["/Audio//Effects/", "a/b", "//x//", ""] {
        let once = Tag::new(s);
        assert_eq!(Tag::new(once.path()), once);
        assert!(!once.path().starts_with('/') && !once.path().ends_with('/') && !once.path().contains("//"));
    }
    // Three slashes in a row collapse to two, which a second pass collapses again.
    assert_eq!(Tag::new("a///b").path(), "a//b");
    assert_eq!(Tag::new(Tag::new("a///b").path()).path(), "a/b");
}

#[test]
fn registry_queries_list_each_tag_once() {
    let mut reg = TagRegistry::new();
    reg.register("audio/effects/reverb", "Reverb", "");
    reg.register("audio/effects/reverb", "Reverb 2", "");
    reg.register("audio/effects", "Effects", "");
    reg.register("video", "Video", "");
    let mut all: Vec<String> = reg.descendants_of(&Tag::new("audio")).iter().map(|i| i.tag.path().to_string()).collect();
    assert_eq!(all.len(), 2);
    all.dedup();
    assert_eq!(all.len(), 2);
    let roots: Vec<String> = reg.root_tags().iter().map(|i| i.tag.path().to_string()).collect();
    assert_eq!(roots, vec!["audio".to_string(), "video".to_string()]);
}

#[test]
fn registry_builders_chain() {
    let mut reg = TagRegistry::new();
    reg.register("audio", "Audio", "")
        .register_full("video", "Video", "", "v.png", "#00ff00")
        .set_color("audio", "#ff0000")
        .alias("vid", "video");
    assert_eq!(reg.info(&Tag::new("audio")).unwrap().color, "#ff0000");
    assert_eq!(reg.resolve("VID"), Tag::new("video"));
    assert_eq!(reg.all_tags().len(), 2);
}

#[test]
fn aliases_follow_rename_merge_and_remove() {
    let mut reg = TagRegistry::new();
    reg.register("a/x", "X", "");
    reg.register("b", "B", "");
    reg.alias("ax", "a/x");
    reg.alias("bb", "b");
    assert!(reg.rename_tag("a/x", "a/y"));
    assert_eq!(reg.resolve("ax"), Tag::new("a/y"));
    assert!(reg.merge_tag("a/y", "b").is_some());
    assert_eq!(reg.resolve("ax"), Tag::new("ax"));
    assert_eq!(reg.resolve("bb"), Tag::new("b"));
    reg.remove_tag("b");
    assert_eq!(reg.resolve("bb"), Tag::new("bb"));
}
