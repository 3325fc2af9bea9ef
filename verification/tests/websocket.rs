use memo_node::api::websocket::{
    client_request, on_incoming, ClientMessage, ClientRequest, ConnectionAction, Incoming,
    ServerMessage, TranscriptionData, DEFAULT_HISTORY_LIMIT,
};
use memo_node::storage::Transcription;

fn record(id: &str, device: Option<&str>) -> Transcription {
    Transcription {
        id: id.to_string(),
        timestamp: 42,
        text: "hello".to_string(),
        source_node: "node-a".to_string(),
        memo_device_id: device.map(|d| d.to_string()),
        synced: true,
    }
}

#[test]
fn a_history_request_without_limit_asks_for_a_hundred() {
    assert_eq!(DEFAULT_HISTORY_LIMIT, 100);
    assert_eq!(
        client_request(ClientMessage::GetHistory { limit: None }),
        ClientRequest::RecentTranscriptions { limit: 100 }
    );
    assert_eq!(
        client_request(ClientMessage::GetHistory { limit: Some(5) }),
        ClientRequest::RecentTranscriptions { limit: 5 }
    );
    assert_eq!(
        client_request(ClientMessage::GetHistory { limit: Some(0) }),
        ClientRequest::RecentTranscriptions { limit: 0 }
    );
}

#[test]
fn clients_see_a_record_without_its_sync_state() {
    let data = TranscriptionData::from_transcription(&record("r1", Some("memo-1")));
    assert_eq!(data.id, "r1");
    assert_eq!(data.timestamp, 42);
    assert_eq!(data.text, "hello");
    assert_eq!(data.source_node, "node-a");
    assert_eq!(data.memo_device_id, Some("memo-1".to_string()));
}

#[test]
fn a_stored_record_is_pushed_with_all_its_fields() {
    match ServerMessage::transcription(&record("r1", None)) {
        ServerMessage::Transcription { id, timestamp, text, source_node, memo_device_id } => {
            assert_eq!(id, "r1");
            assert_eq!(timestamp, 42);
            assert_eq!(text, "hello");
            assert_eq!(source_node, "node-a");
            assert_eq!(memo_device_id, None);
        }
        other => panic!("unexpected message {:?}", other),
    }
}

#[test]
fn a_history_answer_keeps_the_order_of_the_records() {
    let records = vec![record("new", None), record("old", Some("d"))];
    match ServerMessage::history(&records) {
        ServerMessage::History { transcriptions } => {
            assert_eq!(transcriptions.len(), 2);
            assert_eq!(transcriptions[0].id, "new");
            assert_eq!(transcriptions[1].id, "old");
            assert_eq!(transcriptions[1].memo_device_id, Some("d".to_string()));
        }
        other => panic!("unexpected message {:?}", other),
    }
    match ServerMessage::history(&Vec::new()) {
        ServerMessage::History { transcriptions } => assert!(transcriptions.is_empty()),
        other => panic!("unexpected message {:?}", other),
    }
}

#[test]
fn peers_are_announced_by_id() {
    match ServerMessage::peer_connected("node-b".to_string()) {
        ServerMessage::PeerConnected { node_id } => assert_eq!(node_id, "node-b"),
        other => panic!("unexpected message {:?}", other),
    }
    match ServerMessage::peer_disconnected("node-b".to_string()) {
        ServerMessage::PeerDisconnected { node_id } => assert_eq!(node_id, "node-b"),
        other => panic!("unexpected message {:?}", other),
    }
}

#[test]
fn arrivals_on_a_connection_are_dispatched() {
    assert!(matches!(
        on_incoming(Incoming::Text("{}".to_string())),
        ConnectionAction::Handle(text) if text == "{}"
    ));
    assert!(matches!(
        on_incoming(Incoming::Ping(vec![1, 2, 3])),
        ConnectionAction::Pong(payload) if payload == vec![1, 2, 3]
    ));
    assert!(matches!(on_incoming(Incoming::Close), ConnectionAction::Disconnect));
    assert!(matches!(on_incoming(Incoming::Failed), ConnectionAction::Disconnect));
    assert!(matches!(on_incoming(Incoming::Other), ConnectionAction::Ignore));
}
