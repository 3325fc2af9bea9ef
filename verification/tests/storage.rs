use memo_node::storage::{Peer, Storage, Transcription};

fn record(id: &str, timestamp: i64, text: &str, synced: bool) -> Transcription {
    Transcription {
        id: id.to_string(),
        timestamp,
        text: text.to_string(),
        source_node: "node-a".to_string(),
        memo_device_id: None,
        synced,
    }
}

fn ids(records: &[Transcription]) -> Vec<String> {
    records.iter().map(|r| r.id.clone()).collect()
}

#[test]
fn a_new_store_is_empty() {
    let store = Storage::new();
    assert_eq!(store.count_transcriptions(), (0, 0));
    assert!(store.get_transcriptions_since(i64::MIN).is_empty());
    assert!(store.get_recent_transcriptions(10).is_empty());
    assert!(store.get_peers().is_empty());
    assert!(store.get_peer("node-b").is_none());
}

#[test]
fn inserting_a_record_twice_is_inserting_it_once() {
    let mut once = Storage::new();
    let mut twice = Storage::new();
    for store in [&mut once, &mut twice] {
        store.insert_transcription(&record("a", 10, "first", false));
        store.insert_transcription(&record("b", 10, "second", false));
        store.insert_transcription(&record("c", 5, "third", false));
    }
    once.insert_transcription(&record("a", 10, "first", false));
    twice.insert_transcription(&record("a", 10, "first", false));
    twice.insert_transcription(&record("a", 10, "first", false));
    assert_eq!(once.get_transcriptions_since(i64::MIN), twice.get_transcriptions_since(i64::MIN));
    assert_eq!(once.count_transcriptions(), (3, 0));
    assert_eq!(twice.count_transcriptions(), (3, 0));
}

#[test]
fn an_insert_under_a_known_id_replaces_the_record() {
    let mut store = Storage::new();
    store.insert_transcription(&record("a", 10, "old", false));
    store.insert_transcription(&record("b", 20, "other", false));
    store.insert_transcription(&record("a", 30, "new", true));
    let all = store.get_transcriptions_since(0);
    assert_eq!(all, vec![record("b", 20, "other", false), record("a", 30, "new", true)]);
    assert_eq!(store.count_transcriptions(), (2, 1));
}

#[test]
fn a_query_answers_what_is_strictly_newer_oldest_first() {
    let mut store = Storage::new();
    for (id, timestamp) in [("c", 30), ("a", 10), ("d", 40), ("b", 20)] {
        store.insert_transcription(&record(id, timestamp, id, false));
    }
    assert_eq!(ids(&store.get_transcriptions_since(0)), vec!["a", "b", "c", "d"]);
    assert_eq!(ids(&store.get_transcriptions_since(10)), vec!["b", "c", "d"]);
    assert_eq!(ids(&store.get_transcriptions_since(20)), vec!["c", "d"]);
    assert_eq!(ids(&store.get_transcriptions_since(39)), vec!["d"]);
    assert!(store.get_transcriptions_since(40).is_empty());
    assert!(store.get_transcriptions_since(i64::MAX).is_empty());
}

#[test]
fn records_with_negative_timestamps_are_found_from_below() {
    let mut store = Storage::new();
    store.insert_transcription(&record("n", -5, "early", false));
    store.insert_transcription(&record("z", 0, "epoch", false));
    assert_eq!(ids(&store.get_transcriptions_since(-6)), vec!["n", "z"]);
    assert_eq!(ids(&store.get_transcriptions_since(-5)), vec!["z"]);
    assert!(store.get_transcriptions_since(0).is_empty());
}

#[test]
fn records_that_share_a_timestamp_are_all_answered() {
    let mut store = Storage::new();
    store.insert_transcription(&record("x", 7, "x", false));
    store.insert_transcription(&record("y", 7, "y", false));
    store.insert_transcription(&record("z", 7, "z", false));
    let mut found = ids(&store.get_transcriptions_since(6));
    found.sort();
    assert_eq!(found, vec!["x", "y", "z"]);
    assert!(store.get_transcriptions_since(7).is_empty());
}

#[test]
fn the_recent_records_come_newest_first() {
    let mut store = Storage::new();
    for (id, timestamp) in [("b", 20), ("d", 40), ("a", 10), ("c", 30)] {
        store.insert_transcription(&record(id, timestamp, id, false));
    }
    assert_eq!(ids(&store.get_recent_transcriptions(2)), vec!["d", "c"]);
    assert_eq!(ids(&store.get_recent_transcriptions(4)), vec!["d", "c", "b", "a"]);
    assert_eq!(ids(&store.get_recent_transcriptions(100)), vec!["d", "c", "b", "a"]);
    assert!(store.get_recent_transcriptions(0).is_empty());
}

#[test]
fn counts_tell_synced_from_local() {
    let mut store = Storage::new();
    store.insert_transcription(&record("a", 1, "a", false));
    store.insert_transcription(&record("b", 2, "b", true));
    store.insert_transcription(&record("c", 3, "c", true));
    assert_eq!(store.count_transcriptions(), (3, 2));
}

#[test]
fn marking_sets_the_flag_of_one_record() {
    let mut store = Storage::new();
    store.insert_transcription(&record("a", 1, "a", false));
    store.insert_transcription(&record("b", 2, "b", false));
    store.mark_synced("a");
    assert_eq!(
        store.get_transcriptions_since(0),
        vec![record("a", 1, "a", true), record("b", 2, "b", false)]
    );
    store.mark_synced("a");
    store.mark_synced("nobody");
    assert_eq!(store.count_transcriptions(), (2, 1));
}

#[test]
fn a_record_keeps_its_device_and_source() {
    let mut store = Storage::new();
    let with_device = Transcription {
        id: "a".to_string(),
        timestamp: 1,
        text: "t".to_string(),
        source_node: "elsewhere".to_string(),
        memo_device_id: Some("memo-1".to_string()),
        synced: true,
    };
    store.insert_transcription(&with_device);
    assert_eq!(store.get_recent_transcriptions(1), vec![with_device]);
}

#[test]
fn a_cursor_is_kept_per_node() {
    let mut store = Storage::new();
    let first = Peer { node_id: "b".to_string(), last_seen: 100, last_sync_timestamp: 10 };
    let second = Peer { node_id: "c".to_string(), last_seen: 101, last_sync_timestamp: 20 };
    store.upsert_peer(&first);
    store.upsert_peer(&second);
    assert_eq!(store.get_peer("b"), Some(first));
    assert_eq!(store.get_peer("c"), Some(second));
    assert_eq!(store.get_peer("d"), None);
    assert_eq!(store.get_peers().len(), 2);
}

#[test]
fn a_cursor_of_a_known_node_is_replaced() {
    let mut store = Storage::new();
    store.upsert_peer(&Peer { node_id: "b".to_string(), last_seen: 100, last_sync_timestamp: 10 });
    store.upsert_peer(&Peer { node_id: "c".to_string(), last_seen: 100, last_sync_timestamp: 10 });
    let newer = Peer { node_id: "b".to_string(), last_seen: 200, last_sync_timestamp: 30 };
    store.upsert_peer(&newer);
    store.upsert_peer(&newer);
    assert_eq!(store.get_peer("b"), Some(newer));
    assert_eq!(store.get_peers().len(), 2);
    assert_eq!(store.count_transcriptions(), (0, 0));
}

#[test]
fn a_row_is_synced_unless_its_flag_is_zero() {
    for (flag, synced) in [(0, false), (1, true), (2, true), (-1, true)] {
        let row = Transcription::from_row(
            "a".to_string(),
            5,
            "t".to_string(),
            "n".to_string(),
            Some("d".to_string()),
            flag,
        );
        assert_eq!(row.synced, synced);
        assert_eq!(row.id, "a");
        assert_eq!(row.timestamp, 5);
        assert_eq!(row.memo_device_id, Some("d".to_string()));
    }
    assert_eq!(record("a", 1, "a", true).synced_flag(), 1);
    assert_eq!(record("a", 1, "a", false).synced_flag(), 0);
}
