//! The session cache: map operations, claims, and the ledger round trip.

use hls_cache::session::Session;
use hls_cache::store::SessionStore;

fn sample_session(id: &str, title: &str, origin: &str) -> Session {
    Session {
        id: id.to_string(),
        title: title.to_string(),
        origin_url: origin.to_string(),
        segments_dir: format!("/cache/{id}"),
        playlist_path: format!("/cache/{id}/playlist.m3u8"),
        total_segments: 7,
        segment_duration_seconds: 10,
        listen_count: 0,
    }
}

#[test]
fn insert_get_remove() {
    let mut store = SessionStore::new();
    assert_eq!(store.len(), 0);
    let s = sample_session("sid-1", "Song A", "https://example.test/a");
    store.insert("key-1".to_string(), s);
    assert_eq!(store.len(), 1);
    assert!(store.contains_key(&"key-1".to_string()));
    let got = store.get(&"key-1".to_string()).expect("entry should be present");
    assert_eq!(got.title, "Song A");
    assert_eq!(got.total_segments, 7);

    let removed = store.remove(&"key-1".to_string()).expect("removal should hand the session back");
    assert_eq!(removed.id, "sid-1");
    assert_eq!(store.len(), 0);
    assert!(store.get(&"key-1".to_string()).is_none());
    assert!(store.remove(&"key-1".to_string()).is_none());
}

#[test]
fn insert_replaces_the_entry_under_the_same_key() {
    let mut store = SessionStore::new();
    store.insert("k".to_string(), sample_session("sid-1", "Old", "https://example.test/a"));
    store.insert("k".to_string(), sample_session("sid-2", "New", "https://example.test/a"));
    assert_eq!(store.len(), 1);
    assert_eq!(store.get(&"k".to_string()).unwrap().title, "New");
}

#[test]
fn find_by_origin_sees_only_matching_sessions() {
    let mut store = SessionStore::new();
    store.insert("k1".to_string(), sample_session("sid-1", "A", "https://example.test/a"));
    store.insert("k2".to_string(), sample_session("sid-2", "B", "https://example.test/b"));
    let found = store.find_by_origin(&"https://example.test/b".to_string()).unwrap();
    assert_eq!(found.title, "B");
    assert!(store.find_by_origin(&"https://example.test/c".to_string()).is_none());
}

#[test]
fn list_all_snapshots_every_entry() {
    let mut store = SessionStore::new();
    store.insert("k1".to_string(), sample_session("sid-1", "A", "https://example.test/a"));
    store.insert("k2".to_string(), sample_session("sid-2", "B", "https://example.test/b"));
    let all = store.list_all();
    assert_eq!(all.len(), 2);
    assert_eq!(all[0].0, "k1");
    assert_eq!(all[0].1.title, "A");
    assert_eq!(all[1].0, "k2");
    assert_eq!(all[1].1.title, "B");
}

#[test]
fn record_listen_increments_only_the_matching_session() {
    let mut store = SessionStore::new();
    store.insert("k1".to_string(), sample_session("sid-1", "A", "https://example.test/a"));
    store.insert("k2".to_string(), sample_session("sid-2", "B", "https://example.test/b"));
    assert!(store.record_listen(&"sid-2".to_string()));
    assert!(store.record_listen(&"sid-2".to_string()));
    assert!(!store.record_listen(&"sid-missing".to_string()));
    let all = store.list_all();
    assert_eq!(all[0].1.listen_count, 0);
    assert_eq!(all[1].1.listen_count, 2);
}

#[test]
fn a_claimed_key_cannot_be_claimed_again() {
    let mut store = SessionStore::new();
    let origin = "https://example.test/a".to_string();
    let key = "key-a".to_string();
    assert!(store.try_claim(&origin, &key));
    assert!(store.is_claimed(&key));
    // The racing second submission for the same origin derives the same key.
    assert!(!store.try_claim(&origin, &key));
    // Releasing the claim makes the origin available again.
    store.release_claim(&key);
    assert!(!store.is_claimed(&key));
    assert!(store.try_claim(&origin, &key));
}

#[test]
fn a_cached_origin_or_key_cannot_be_claimed() {
    let mut store = SessionStore::new();
    store.insert("k1".to_string(), sample_session("sid-1", "A", "https://example.test/a"));
    assert!(!store.try_claim(&"https://example.test/a".to_string(), &"other-key".to_string()));
    assert!(!store.try_claim(&"https://example.test/b".to_string(), &"k1".to_string()));
    assert!(store.try_claim(&"https://example.test/b".to_string(), &"k2".to_string()));
}

#[test]
fn complete_claim_registers_exactly_one_entry() {
    let mut store = SessionStore::new();
    let origin = "https://example.test/a".to_string();
    let key = "key-a".to_string();
    assert!(store.try_claim(&origin, &key));
    store.complete_claim(key.clone(), sample_session("sid-1", "A", &origin));
    assert_eq!(store.len(), 1);
    assert!(!store.is_claimed(&key));
    assert_eq!(store.get(&key).unwrap().id, "sid-1");
    // The origin is now cached, so a fresh claim for it is refused.
    assert!(!store.try_claim(&origin, &key));
}

#[test]
fn ledger_round_trip_preserves_every_field() {
    let mut store = SessionStore::new();
    let mut a = sample_session("sid-1", "A", "https://example.test/a");
    a.listen_count = 41;
    store.insert("k1".to_string(), a);
    store.insert("k2".to_string(), sample_session("sid-2", "B", "https://example.test/b"));

    let records = store.to_records();
    assert_eq!(records.len(), 2);
    let present = vec![true, true];
    let reloaded = SessionStore::from_records(&records, &present);
    assert_eq!(reloaded.len(), 2);
    let all_before = store.list_all();
    let all_after = reloaded.list_all();
    for (before, after) in all_before.iter().zip(all_after.iter()) {
        assert_eq!(before.0, after.0);
        assert_eq!(before.1.id, after.1.id);
        assert_eq!(before.1.title, after.1.title);
        assert_eq!(before.1.origin_url, after.1.origin_url);
        assert_eq!(before.1.segments_dir, after.1.segments_dir);
        assert_eq!(before.1.playlist_path, after.1.playlist_path);
        assert_eq!(before.1.total_segments, after.1.total_segments);
        assert_eq!(before.1.segment_duration_seconds, after.1.segment_duration_seconds);
        assert_eq!(before.1.listen_count, after.1.listen_count);
    }
}

#[test]
fn a_row_with_missing_artifacts_is_dropped_on_load() {
    let mut store = SessionStore::new();
    store.insert("k1".to_string(), sample_session("sid-1", "A", "https://example.test/a"));
    store.insert("k2".to_string(), sample_session("sid-2", "B", "https://example.test/b"));
    let records = store.to_records();
    // The first row's directory was deleted externally before the reload.
    let present = vec![false, true];
    let reloaded = SessionStore::from_records(&records, &present);
    assert_eq!(reloaded.len(), 1);
    assert!(!reloaded.contains_key(&"k1".to_string()));
    assert_eq!(reloaded.get(&"k2".to_string()).unwrap().id, "sid-2");
}

#[test]
fn an_empty_ledger_loads_an_empty_store() {
    let reloaded = SessionStore::from_records(&Vec::new(), &Vec::new());
    assert_eq!(reloaded.len(), 0);
    assert!(reloaded.list_all().is_empty());
}
