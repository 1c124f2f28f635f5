use launcher_core::favorites::{default_favorites_path, Favorites};
use launcher_core::history::{default_history_path, History, HistoryEntry, DAY_MILLIS};
use launcher_core::userdata::{default_userdata_path, ItemData, UserDataStore};

// ── Favorites ──────────────────────────────────────────────────

#[test]
fn favorites_toggle_reports_new_state() {
    let mut favs = Favorites::default();
    assert!(favs.toggle("firefox"));
    assert!(favs.is_favorite("firefox"));
    assert_eq!(favs.count(), 1);
    assert!(!favs.toggle("firefox"));
    assert!(!favs.is_favorite("firefox"));
    assert_eq!(favs.count(), 0);
}

#[test]
fn favorites_add_twice_keeps_one() {
    let mut favs = Favorites::default();
    favs.add("a");
    favs.add("b");
    favs.add("a");
    assert_eq!(favs.count(), 2);
    assert!(favs.all().contains(&"a".to_string()));
    assert!(favs.all().contains(&"b".to_string()));
    favs.remove("a");
    favs.remove("missing");
    assert_eq!(favs.all(), &["b".to_string()]);
}

#[test]
fn favorites_path_from_environment() {
    assert_eq!(
        default_favorites_path(None, Some("/home/u")),
        "/home/u/.local/share/dioxus-launcher/favorites.json"
    );
    assert_eq!(default_favorites_path(Some("/d"), None), "/d/dioxus-launcher/favorites.json");
}

// ── User data ──────────────────────────────────────────────────

#[test]
fn rating_is_clamped_to_five() {
    let mut ud = UserDataStore::new();
    assert_eq!(ud.rating("x"), 0);
    ud.set_rating("x", 3);
    assert_eq!(ud.rating("x"), 3);
    ud.set_rating("x", 9);
    assert_eq!(ud.rating("x"), 5);
}

#[test]
fn notes_and_hidden_flags() {
    let mut ud = UserDataStore::new();
    assert_eq!(ud.note("x"), "");
    ud.set_note("x", "great reverb");
    assert_eq!(ud.note("x"), "great reverb");
    assert!(!ud.is_hidden("x"));
    assert!(ud.toggle_hidden("x"));
    assert!(ud.is_hidden("x"));
    assert!(!ud.toggle_hidden("x"));
    ud.set_hidden("y", true);
    assert!(ud.is_hidden("y"));
}

#[test]
fn user_tags_are_added_once_and_removed() {
    let mut ud = UserDataStore::new();
    ud.add_tag("x", "fav/mixing");
    ud.add_tag("x", "fav/mixing");
    ud.add_tag("x", "fav/master");
    assert_eq!(ud.user_tags("x"), &["fav/mixing".to_string(), "fav/master".to_string()]);
    ud.remove_tag("x", "fav/mixing");
    assert_eq!(ud.user_tags("x"), &["fav/master".to_string()]);
    assert!(ud.user_tags("nobody").is_empty());
}

#[test]
fn replace_tag_all_replaces_first_occurrence() {
    let mut ud = UserDataStore::new();
    ud.add_tag("a", "old");
    ud.add_tag("b", "keep");
    ud.add_tag("b", "old");
    ud.replace_tag_all("old", "new");
    assert_eq!(ud.user_tags("a"), &["new".to_string()]);
    assert_eq!(ud.user_tags("b"), &["keep".to_string(), "new".to_string()]);
}

#[test]
fn variant_groups_sync_tags() {
    let mut ud = UserDataStore::new();
    ud.set_variant_group("reverb-vst3", "reverb");
    ud.set_variant_group("reverb-clap", "reverb");
    ud.set_variant_group("reverb-clap", "reverb");
    assert_eq!(ud.variant_siblings("reverb-vst3"), vec!["reverb-clap".to_string()]);
    assert_eq!(ud.variant_siblings("reverb-clap"), vec!["reverb-vst3".to_string()]);
    assert!(ud.variant_siblings("other").is_empty());
    ud.sync_tag_to_variants("reverb-vst3", "space");
    assert_eq!(ud.user_tags("reverb-clap"), &["space".to_string()]);
    assert!(ud.user_tags("reverb-vst3").is_empty());
    let groups = ud.variant_groups();
    assert_eq!(groups.len(), 1);
    assert_eq!(groups[0].0, "reverb");
    assert_eq!(groups[0].1, vec!["reverb-clap".to_string(), "reverb-vst3".to_string()]);
}

#[test]
fn first_seen_is_kept() {
    let mut ud = UserDataStore::new();
    ud.mark_seen_at("x", 100);
    ud.mark_seen_at("x", 200);
    assert!(ud.is_new_since("x", 99));
    assert!(!ud.is_new_since("x", 100));
    assert!(!ud.is_new_since("y", 0));
}

#[test]
fn recently_added_needs_a_scan() {
    let mut ud = UserDataStore::new();
    ud.mark_seen_at("x", 500);
    assert!(!ud.is_recently_added("x"));
    ud.mark_scan_complete_at(400);
    assert_eq!(ud.last_scan, Some(400));
    assert!(ud.is_recently_added("x"));
    ud.mark_scan_complete_at(600);
    assert!(!ud.is_recently_added("x"));
}

#[test]
fn mark_seen_uses_the_clock() {
    let mut ud = UserDataStore::new();
    ud.mark_seen("x");
    // The clock is past the year 2001.
    assert!(ud.is_new_since("x", 1_000_000_000_000));
    ud.mark_scan_complete();
    assert!(ud.last_scan.unwrap() > 1_000_000_000_000);
}

#[test]
fn merge_takes_ratings_notes_hidden_and_first_seen() {
    let mut a = UserDataStore::new();
    a.set_rating("x", 2);
    a.set_note("x", "mine");
    a.mark_seen_at("x", 10);
    let mut b = UserDataStore::new();
    b.set_rating("x", 4);
    b.set_note("x", "");
    b.set_hidden("x", true);
    b.mark_seen_at("x", 5);
    b.set_rating("y", 0);
    b.mark_seen_at("y", 7);
    a.merge(&b);
    assert_eq!(a.rating("x"), 4);
    assert_eq!(a.note("x"), "mine");
    assert!(a.is_hidden("x"));
    assert!(a.is_new_since("x", 9));
    assert!(!a.is_new_since("x", 10));
    assert!(a.is_new_since("y", 6));
}

#[test]
fn merge_adds_new_entries_with_their_user_tags() {
    let mut a = UserDataStore::new();
    a.add_tag("x", "mine");
    let mut b = UserDataStore::new();
    b.add_tag("y", "t");
    b.set_rating("y", 3);
    b.add_tag("x", "theirs");
    a.merge(&b);
    assert_eq!(a.user_tags("y"), &["t".to_string()]);
    assert_eq!(a.rating("y"), 3);
    assert_eq!(a.user_tags("x"), &["mine".to_string()]);
}

#[test]
fn all_data_and_from_parts_round_trip() {
    let mut ud = UserDataStore::new();
    ud.set_rating("x", 1);
    ud.add_tag("y", "t");
    ud.set_variant_group("x", "g");
    let data = ud.all_data();
    assert_eq!(data.len(), 2);
    let back = UserDataStore::from_parts(data, Some(3), ud.variant_groups());
    assert_eq!(back.rating("x"), 1);
    assert_eq!(back.user_tags("y"), &["t".to_string()]);
    assert_eq!(back.last_scan, Some(3));
    assert!(back.variant_siblings("x").is_empty());
    let d = ItemData::default();
    assert_eq!(d.rating, 0);
    assert!(!d.hidden);
}

#[test]
fn userdata_path_from_environment() {
    assert_eq!(default_userdata_path(Some("/d"), Some("/h")), "/d/dioxus-launcher/userdata.json");
}

// ── History ────────────────────────────────────────────────────

#[test]
fn usage_score_counts_and_decays() {
    let mut h = History::new();
    let t0: i64 = 1_700_000_000_000;
    assert_eq!(h.usage_score_at("fi", "firefox", t0), 0);
    h.record_at("fi", "firefox", t0);
    h.record_at("fi", "firefox", t0);
    assert_eq!(h.usage_score_at("fi", "firefox", t0), 20);
    assert_eq!(h.usage_score_at("fi", "firefox", t0 + 3 * DAY_MILLIS), 14);
    assert_eq!(h.usage_score_at("fi", "firefox", t0 + 3 * DAY_MILLIS - 1), 16);
    assert_eq!(h.usage_score_at("fi", "firefox", t0 + 10 * DAY_MILLIS), 0);
    assert_eq!(h.usage_score_at("fi", "firefox", t0 - DAY_MILLIS), 20);
    assert_eq!(h.usage_score_at("other", "firefox", t0), 0);
}

#[test]
fn usage_score_counts_at_most_ten() {
    let mut h = History::new();
    for _ in 0..15 {
        h.record_at("q", "i", 0);
    }
    assert_eq!(h.usage_score_at("q", "i", 0), 100);
    let e = h.entries();
    assert_eq!(e.len(), 1);
    assert_eq!(e[0].2, HistoryEntry { count: 15, last_used: 0 });
}

#[test]
fn erase_and_clear_history() {
    let mut h = History::new();
    h.record_at("a", "x", 0);
    h.record_at("b", "x", 0);
    h.record_at("b", "y", 0);
    h.erase_item("x");
    assert_eq!(h.usage_score_at("a", "x", 0), 0);
    assert_eq!(h.usage_score_at("b", "x", 0), 0);
    assert_eq!(h.usage_score_at("b", "y", 0), 10);
    h.clear();
    assert!(h.entries().is_empty());
}

#[test]
fn history_entries_round_trip() {
    let mut h = History::new();
    h.record_at("a", "x", 5);
    h.record_at("b", "y", 6);
    let back = History::from_entries(h.entries());
    assert_eq!(back.usage_score_at("a", "x", 5), 10);
    assert_eq!(back.usage_score_at("b", "y", 6), 10);
    let mut live = History::new();
    live.record("q", "i");
    assert_eq!(live.usage_score("q", "i"), 10);
}

#[test]
fn history_path_from_environment() {
    assert_eq!(default_history_path(None, None), "./.local/share/dioxus-launcher/history.json");
}
