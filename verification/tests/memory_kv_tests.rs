use slippy_map::frames::{can_go_to_my_position, toggle_map_controls_open};
use slippy_map::kv::{KVStore, KVValue};
use slippy_map::memory::{CenterMode, MapMemory};
use slippy_map::path::config_path;
use slippy_map::position::Position;

#[test]
fn zoom_out_stops_at_the_minimum() {
    let mut m = MapMemory::new(2, 1, 4);
    assert!(m.zoom_out().is_ok());
    assert_eq!(m.zoom(), 1);
    // The step that would cross the minimum fails and changes nothing,
    // however often it is repeated.
    for _ in 0..5 {
        assert!(m.zoom_out().is_err());
        assert_eq!(m.zoom(), 1);
    }
}

#[test]
fn zoom_in_stops_at_the_maximum() {
    let mut m = MapMemory::new(3, 1, 4);
    assert!(m.zoom_in().is_ok());
    assert_eq!(m.zoom(), 4);
    for _ in 0..5 {
        assert!(m.zoom_in().is_err());
        assert_eq!(m.zoom(), 4);
    }
}

#[test]
fn drag_detaches_and_follow_returns() {
    let mut m = MapMemory::default();
    assert_eq!(m.detached(), None);
    assert!(!can_go_to_my_position(&m));

    let dragged = Position::new(36_676_800, -4_493_900);
    m.drag_to(dragged);
    assert_eq!(m.detached(), Some(dragged));
    assert!(can_go_to_my_position(&m));
    assert!(matches!(m.center_mode, CenterMode::Detached(_)));

    m.follow_my_position();
    assert_eq!(m.detached(), None);
    assert!(!can_go_to_my_position(&m));
}

#[test]
fn effective_center_follows_feed_until_detached() {
    let mut m = MapMemory::default();
    let feed = Position::new(1_000_000, 2_000_000);
    assert_eq!(m.effective_center(feed), feed);
    let dragged = Position::new(5_000_000, 6_000_000);
    m.drag_to(dragged);
    assert_eq!(m.effective_center(feed), dragged);
}

#[test]
fn kvstore_multitype_roundtrip() {
    let mut store = KVStore::new();
    store.set("username", KVValue::Text("test_user".to_string()));
    store.set("count", KVValue::Integer(42));
    store.set("active", KVValue::Boolean(true));

    assert_eq!(
        store.get_as_str("username"),
        Some("test_user".to_string())
    );
    assert_eq!(store.get_as_integer("count"), Some(42));
    assert!(store.get_as_bool("active"));
    assert_eq!(store.get("count"), Some(KVValue::Integer(42)));
    // A key of another type reads as absent through a typed accessor.
    assert_eq!(store.get_as_integer("username"), None);
    assert!(!store.get_as_bool("missing"));
    assert!(store.get_as_bool_or_default("missing", true));
}

#[test]
fn kvstore_set_overwrites_and_delete_removes() {
    let mut store = KVStore::new();
    store.set("count", KVValue::Integer(1));
    store.set("count", KVValue::Integer(2));
    assert_eq!(store.get_as_integer("count"), Some(2));
    store.delete("count");
    assert_eq!(store.get("count"), None);
    // Deleting an absent key is harmless.
    store.delete("count");
    assert_eq!(store.get("count"), None);
}

#[test]
fn map_controls_toggle_flips_the_stored_flag() {
    let mut store = KVStore::new();
    toggle_map_controls_open(&mut store);
    assert!(store.get_as_bool("viewer.windows.map_controls_open"));
    toggle_map_controls_open(&mut store);
    assert!(!store.get_as_bool("viewer.windows.map_controls_open"));
}

#[test]
fn config_path_names_the_settings_directory() {
    assert_eq!(config_path(), "config/adsb//".to_string());
}
