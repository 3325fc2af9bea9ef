use memo_node::storage::{Peer, Storage, Transcription};
use memo_node::sync::peer::{
    from_wire, listen_endpoint, ping_response, pull_round, to_wire, transcriptions_since,
    PeerTable, PushSession, SyncRound, WireTranscription,
};

fn local(id: &str, timestamp: i64, node: &str) -> Transcription {
    Transcription {
        id: id.to_string(),
        timestamp,
        text: format!("text of {}", id),
        source_node: node.to_string(),
        memo_device_id: None,
        synced: false,
    }
}

fn synced(record: &Transcription) -> Transcription {
    let mut copy = record.clone();
    copy.synced = true;
    copy
}

/// One round in which `to` pulls from `from`, whose node id is `from_id`.
fn sync(to: &mut Storage, from: &Storage, from_id: &str, now: i64) -> usize {
    let round = SyncRound::begin(to, from_id);
    let stream = transcriptions_since(from, round.since());
    pull_round(to, from_id, stream, now).taken
}

#[test]
fn a_fresh_peer_is_pulled_whole_and_the_second_round_changes_nothing() {
    let mut a = Storage::new();
    let records = [local("r1", 10, "A"), local("r2", 20, "A"), local("r3", 30, "A")];
    for record in &records {
        a.insert_transcription(record);
    }
    let mut b = Storage::new();
    assert_eq!(SyncRound::begin(&b, "A").since(), 0);

    assert_eq!(sync(&mut b, &a, "A", 1000), 3);
    let expected: Vec<Transcription> = records.iter().map(synced).collect();
    assert_eq!(b.get_transcriptions_since(i64::MIN), expected);
    assert_eq!(b.count_transcriptions(), (3, 3));
    assert_eq!(
        b.get_peer("A"),
        Some(Peer { node_id: "A".to_string(), last_seen: 1000, last_sync_timestamp: 30 })
    );

    assert_eq!(sync(&mut b, &a, "A", 1000), 0);
    assert_eq!(b.get_transcriptions_since(i64::MIN), expected);
    assert_eq!(b.get_peer("A").unwrap().last_sync_timestamp, 30);
    assert_eq!(b.get_peers().len(), 1);
}

#[test]
fn a_record_reaches_a_node_through_another_and_keeps_its_source() {
    let mut a = Storage::new();
    let mut b = Storage::new();
    let mut c = Storage::new();
    let ra = local("rA", 10, "A");
    a.insert_transcription(&ra);

    assert_eq!(sync(&mut b, &a, "A", 100), 1);
    assert_eq!(sync(&mut c, &b, "B", 101), 1);

    let at_c = c.get_transcriptions_since(i64::MIN);
    assert_eq!(at_c, vec![synced(&ra)]);
    assert_eq!(at_c[0].source_node, "A");
    assert!(at_c[0].synced);
    assert!(c.get_peer("B").unwrap().last_sync_timestamp >= 10);

    assert_eq!(sync(&mut c, &a, "A", 102), 1);
    assert_eq!(c.get_transcriptions_since(i64::MIN), vec![synced(&ra)]);
    assert_eq!(c.count_transcriptions(), (1, 1));
}

#[test]
fn only_what_is_newer_than_the_cursor_is_pulled() {
    let mut a = Storage::new();
    let mut b = Storage::new();
    a.insert_transcription(&local("r1", 10, "A"));
    assert_eq!(sync(&mut b, &a, "A", 1), 1);
    a.insert_transcription(&local("r2", 20, "A"));
    a.insert_transcription(&local("r0", 5, "A"));
    let round = SyncRound::begin(&b, "A");
    assert_eq!(round.since(), 10);
    let stream = transcriptions_since(&a, round.since());
    assert_eq!(stream.len(), 1);
    assert_eq!(stream[0].id, "r2");
    assert_eq!(pull_round(&mut b, "A", stream, 2).taken, 1);
    assert_eq!(b.get_peer("A").unwrap().last_sync_timestamp, 20);
    assert_eq!(b.get_peer("A").unwrap().last_seen, 2);
}

#[test]
fn the_cursor_never_moves_back() {
    let mut b = Storage::new();
    b.upsert_peer(&Peer { node_id: "A".to_string(), last_seen: 1, last_sync_timestamp: 50 });
    let stale = vec![to_wire(&local("old", 7, "A"))];
    assert_eq!(pull_round(&mut b, "A", stale, 2).taken, 1);
    assert_eq!(b.get_peer("A").unwrap().last_sync_timestamp, 50);
    let idle = pull_round(&mut b, "A", Vec::new(), 3);
    assert_eq!(idle.taken, 0);
    assert_eq!(idle.cursor, Peer { node_id: "A".to_string(), last_seen: 3, last_sync_timestamp: 50 });
    assert_eq!(b.get_peer("A").unwrap().last_sync_timestamp, 50);
    assert_eq!(b.get_peer("A").unwrap().last_seen, 3);
}

#[test]
fn a_round_that_breaks_off_leaves_the_cursor_alone() {
    let mut b = Storage::new();
    b.upsert_peer(&Peer { node_id: "A".to_string(), last_seen: 1, last_sync_timestamp: 5 });
    let mut round = SyncRound::begin(&b, "A");
    let taken = round.on_record(&mut b, to_wire(&local("r1", 10, "A")));
    assert_eq!(taken, synced(&local("r1", 10, "A")));
    // The stream breaks here: the round is dropped without `finish`.
    assert_eq!(b.get_peer("A").unwrap().last_sync_timestamp, 5);
    assert_eq!(b.count_transcriptions(), (1, 1));
    // The next round asks from the old cursor again.
    assert_eq!(SyncRound::begin(&b, "A").since(), 5);
}

#[test]
fn a_round_counts_what_it_takes_and_sets_the_cursor_at_the_end() {
    let mut b = Storage::new();
    let mut round = SyncRound::begin(&b, "A");
    let _ = round.on_record(&mut b, to_wire(&local("r2", 20, "A")));
    let _ = round.on_record(&mut b, to_wire(&local("r1", 10, "A")));
    assert!(b.get_peer("A").is_none());
    assert_eq!(round.finish(&mut b, 77).taken, 2);
    assert_eq!(
        b.get_peer("A"),
        Some(Peer { node_id: "A".to_string(), last_seen: 77, last_sync_timestamp: 20 })
    );
}

#[test]
fn the_wire_form_drops_the_sync_state_and_empties_an_absent_device() {
    let mut record = local("r", 9, "A");
    let wire = to_wire(&record);
    assert_eq!(wire.id, "r");
    assert_eq!(wire.timestamp, 9);
    assert_eq!(wire.text, "text of r");
    assert_eq!(wire.source_node, "A");
    assert_eq!(wire.memo_device_id, "");
    assert_eq!(from_wire(wire), synced(&record));

    record.memo_device_id = Some("memo-7".to_string());
    let wire = to_wire(&record);
    assert_eq!(wire.memo_device_id, "memo-7");
    assert_eq!(from_wire(wire), synced(&record));
}

#[test]
fn the_server_streams_synced_records_too() {
    let mut a = Storage::new();
    a.insert_transcription(&synced(&local("relayed", 3, "C")));
    a.insert_transcription(&local("own", 4, "A"));
    let stream = transcriptions_since(&a, 0);
    assert_eq!(stream.len(), 2);
    assert_eq!(stream[0].id, "relayed");
    assert_eq!(stream[0].source_node, "C");
    assert_eq!(stream[1].id, "own");
}

#[test]
fn pushed_records_are_stored_as_synced_and_counted() {
    let mut store = Storage::new();
    let mut session = PushSession::new();
    assert!(session.has_room());
    let first = session.on_record(&mut store, to_wire(&local("p1", 1, "B")));
    assert_eq!(first, synced(&local("p1", 1, "B")));
    let _ = session.on_record(&mut store, to_wire(&local("p2", 2, "B")));
    let _ = session.on_record(&mut store, to_wire(&local("p1", 1, "B")));
    assert_eq!(session.finish(), 3);
    assert_eq!(store.count_transcriptions(), (2, 2));
}

#[test]
fn a_ping_is_answered_with_id_and_time() {
    let response = ping_response("node-a", 1234);
    assert_eq!(response.node_id, "node-a");
    assert_eq!(response.timestamp, 1234);
}

#[test]
fn the_server_listens_on_every_interface() {
    assert_eq!(listen_endpoint(50051), "0.0.0.0:50051");
    assert_eq!(listen_endpoint(0), "0.0.0.0:0");
}

#[test]
fn the_peer_table_keeps_one_entry_per_node() {
    let mut table = PeerTable::new();
    assert!(table.peers().is_empty());
    table.add_peer("b".to_string(), "192.168.1.2".to_string(), 50051);
    table.add_peer("c".to_string(), "192.168.1.3".to_string(), 50052);
    table.add_peer("b".to_string(), "192.168.1.9".to_string(), 50060);
    let peers = table.peers();
    assert_eq!(peers.len(), 2);
    assert_eq!(peers[0].node_id, "b");
    assert_eq!(peers[0].address, "192.168.1.9");
    assert_eq!(peers[0].grpc_port, 50060);
    assert_eq!(peers[1].node_id, "c");
    assert_eq!(peers[0].url(), "http://192.168.1.9:50060");
    assert_eq!(peers[1].url(), "http://192.168.1.3:50052");
}

#[test]
fn a_wire_record_carries_its_fields() {
    let wire = WireTranscription {
        id: "w".to_string(),
        timestamp: -3,
        text: "t".to_string(),
        source_node: "n".to_string(),
        memo_device_id: String::new(),
    };
    let record = from_wire(wire);
    assert_eq!(record.timestamp, -3);
    assert_eq!(record.memo_device_id, None);
    assert!(record.synced);
}

#[test]
fn the_cursor_of_a_round_is_what_finish_stores() {
    let mut b = Storage::new();
    b.upsert_peer(&Peer { node_id: "A".to_string(), last_seen: 1, last_sync_timestamp: 5 });
    let mut round = SyncRound::begin(&b, "A");
    assert_eq!(
        round.cursor(9),
        Peer { node_id: "A".to_string(), last_seen: 9, last_sync_timestamp: 5 }
    );
    let _ = round.on_record(&mut b, to_wire(&local("r", 40, "A")));
    let expected = Peer { node_id: "A".to_string(), last_seen: 10, last_sync_timestamp: 40 };
    assert_eq!(round.cursor(10), expected);
    assert_eq!(b.get_peer("A").unwrap().last_sync_timestamp, 5);
    assert_eq!(round.finish(&mut b, 10).cursor, expected);
    assert_eq!(b.get_peer("A"), Some(expected));
}

#[test]
fn a_copy_of_a_wire_record_stands_for_the_same_record() {
    let mut record = local("r", 9, "A");
    record.memo_device_id = Some("memo-7".to_string());
    let wire = to_wire(&record);
    let copy = wire.clone();
    assert_eq!(from_wire(copy), from_wire(wire));
}
