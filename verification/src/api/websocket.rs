//! Messages of the client push socket and the handling of what a client
//! sends.
//!
//! The socket itself, and the JSON form of the messages, belong to the
//! caller. Here a frame is a plain value, and so is the answer to it.

use crate::storage::{clone_option_string, option_string_view, Transcription};
use vstd::prelude::*;

verus! {

/// Number of transcriptions in a history answer when the client names none.
pub const DEFAULT_HISTORY_LIMIT: usize = 100;

/// Capacity of the queue of messages waiting for one client.
pub const CLIENT_QUEUE_CAPACITY: usize = 100;

/// A transcription as clients see it: the record without its sync state.
#[derive(Debug)]
pub struct TranscriptionData {
    pub id: String,
    pub timestamp: i64,
    pub text: String,
    pub source_node: String,
    pub memo_device_id: Option<String>,
}

/// Mathematical value of a [`TranscriptionData`].
pub struct TranscriptionDataView {
    pub id: Seq<char>,
    pub timestamp: int,
    pub text: Seq<char>,
    pub source_node: Seq<char>,
    pub memo_device_id: Option<Seq<char>>,
}

impl View for TranscriptionData {
    type V = TranscriptionDataView;

    open spec fn view(&self) -> TranscriptionDataView {
        TranscriptionDataView {
            id: self.id@,
            timestamp: self.timestamp as int,
            text: self.text@,
            source_node: self.source_node@,
            memo_device_id: option_string_view(self.memo_device_id),
        }
    }
}

/// What a transcription looks like to a client.
pub open spec fn client_view(record: crate::storage::TranscriptionView) -> TranscriptionDataView {
    TranscriptionDataView {
        id: record.id,
        timestamp: record.timestamp,
        text: record.text,
        source_node: record.source_node,
        memo_device_id: record.memo_device_id,
    }
}

impl TranscriptionData {
    /// The client's view of a stored record.
    pub fn from_transcription(record: &Transcription) -> (data: Self)
        ensures
            data@ == client_view(record@),
    {
        TranscriptionData {
            id: record.id.clone(),
            timestamp: record.timestamp,
            text: record.text.clone(),
            source_node: record.source_node.clone(),
            memo_device_id: clone_option_string(&record.memo_device_id),
        }
    }
}

/// A message from the node to a client.
#[derive(Debug)]
pub enum ServerMessage {
    Transcription {
        id: String,
        timestamp: i64,
        text: String,
        source_node: String,
        memo_device_id: Option<String>,
    },
    PeerConnected { node_id: String },
    PeerDisconnected { node_id: String },
    History { transcriptions: Vec<TranscriptionData> },
}

/// A message from a client to the node.
#[derive(Debug, Clone, Copy, PartialEq, Eq, Structural)]
pub enum ClientMessage {
    GetHistory { limit: Option<usize> },
}

/// Client views of a list of records, in the same order.
pub open spec fn client_views(records: Seq<Transcription>) -> Seq<TranscriptionDataView> {
    Seq::new(records.len(), |i: int| client_view(records[i]@))
}

/// Views of a list of client records.
pub open spec fn data_views(items: Seq<TranscriptionData>) -> Seq<TranscriptionDataView> {
    Seq::new(items.len(), |i: int| items[i]@)
}

impl ServerMessage {
    /// The push message for a record that was just stored.
    pub fn transcription(record: &Transcription) -> (message: Self)
        ensures
            message matches ServerMessage::Transcription {
                id,
                timestamp,
                text,
                source_node,
                memo_device_id,
            } && id@ == record@.id && timestamp == record@.timestamp && text@ == record@.text
                && source_node@ == record@.source_node && option_string_view(memo_device_id)
                == record@.memo_device_id,
    {
        ServerMessage::Transcription {
            id: record.id.clone(),
            timestamp: record.timestamp,
            text: record.text.clone(),
            source_node: record.source_node.clone(),
            memo_device_id: clone_option_string(&record.memo_device_id),
        }
    }

    /// The answer to a history request: the given records, in the given order.
    pub fn history(records: &Vec<Transcription>) -> (message: Self)
        ensures
            message matches ServerMessage::History { transcriptions } && data_views(
                transcriptions@,
            ) == client_views(records@),
    {
        let mut transcriptions: Vec<TranscriptionData> = Vec::new();
        let mut i: usize = 0;
        while i < records.len()
            invariant
                i <= records@.len(),
                transcriptions@.len() == i,
                forall|j: int| 0 <= j < i ==> (#[trigger] transcriptions@[j])@ == client_view(
                    records@[j]@,
                ),
            decreases records@.len() - i,
        {
            transcriptions.push(TranscriptionData::from_transcription(&records[i]));
            i += 1;
        }
        assert(data_views(transcriptions@) =~= client_views(records@));
        ServerMessage::History { transcriptions }
    }

    /// The notice that a peer has appeared.
    pub fn peer_connected(node_id: String) -> (message: Self)
        ensures
            message matches ServerMessage::PeerConnected { node_id: id } && id == node_id,
    {
        ServerMessage::PeerConnected { node_id }
    }

    /// The notice that a peer is gone.
    pub fn peer_disconnected(node_id: String) -> (message: Self)
        ensures
            message matches ServerMessage::PeerDisconnected { node_id: id } && id == node_id,
    {
        ServerMessage::PeerDisconnected { node_id }
    }
}

/// What a client message asks for.
#[derive(Debug, Clone, Copy, PartialEq, Eq, Structural)]
pub enum ClientRequest {
    /// The most recent transcriptions, at most `limit` of them, newest first.
    RecentTranscriptions { limit: usize },
}

/// Reads a client message: a history request asks for the number of records
/// it names, or for `DEFAULT_HISTORY_LIMIT` if it names none.
pub fn client_request(message: ClientMessage) -> (request: ClientRequest)
    ensures
        request == (ClientRequest::RecentTranscriptions {
            limit: match message {
                ClientMessage::GetHistory { limit: Some(n) } => n,
                ClientMessage::GetHistory { limit: None } => DEFAULT_HISTORY_LIMIT,
            },
        }),
{
    match message {
        ClientMessage::GetHistory { limit } => {
            let limit = match limit {
                Some(n) => n,
                None => DEFAULT_HISTORY_LIMIT,
            };
            ClientRequest::RecentTranscriptions { limit }
        },
    }
}

/// One thing that arrived on a client connection.
#[derive(Debug)]
pub enum Incoming {
    /// A text frame.
    Text(String),
    /// A ping with its payload.
    Ping(Vec<u8>),
    /// A close frame.
    Close,
    /// A frame of any other kind.
    Other,
    /// The connection failed.
    Failed,
}

/// What to do about it.
#[derive(Debug)]
pub enum ConnectionAction {
    /// Read the text as a client message and answer it.
    Handle(String),
    /// Answer with a pong that carries the same payload.
    Pong(Vec<u8>),
    /// Nothing.
    Ignore,
    /// Stop reading and end the connection.
    Disconnect,
}

/// Decides what to do about one arrival on a client connection: text is
/// handled, a ping is answered, a close frame or a failure ends the
/// connection, and everything else is passed over.
pub fn on_incoming(incoming: Incoming) -> (action: ConnectionAction)
    ensures
        action == match incoming {
            Incoming::Text(text) => ConnectionAction::Handle(text),
            Incoming::Ping(payload) => ConnectionAction::Pong(payload),
            Incoming::Close => ConnectionAction::Disconnect,
            Incoming::Failed => ConnectionAction::Disconnect,
            Incoming::Other => ConnectionAction::Ignore,
        },
{
    match incoming {
        Incoming::Text(text) => ConnectionAction::Handle(text),
        Incoming::Ping(payload) => ConnectionAction::Pong(payload),
        Incoming::Close => ConnectionAction::Disconnect,
        Incoming::Failed => ConnectionAction::Disconnect,
        Incoming::Other => ConnectionAction::Ignore,
    }
}

} // verus!
