//! Transcription records, peer cursors and the store that keeps them.

pub mod model;
pub mod store;

pub use store::Storage;

use vstd::prelude::*;
use vstd::std_specs::cmp::PartialEqSpecImpl;

verus! {

/// One finished utterance as text, the unit of replication.
#[derive(Debug)]
pub struct Transcription {
    pub id: String,
    pub timestamp: i64,
    pub text: String,
    pub source_node: String,
    pub memo_device_id: Option<String>,
    pub synced: bool,
}

/// Mathematical value of a [`Transcription`].
pub struct TranscriptionView {
    pub id: Seq<char>,
    pub timestamp: int,
    pub text: Seq<char>,
    pub source_node: Seq<char>,
    pub memo_device_id: Option<Seq<char>>,
    pub synced: bool,
}

/// Replication cursor kept for one remote node.
#[derive(Debug)]
pub struct Peer {
    pub node_id: String,
    pub last_seen: i64,
    pub last_sync_timestamp: i64,
}

/// Mathematical value of a [`Peer`].
pub struct PeerView {
    pub node_id: Seq<char>,
    pub last_seen: int,
    pub last_sync_timestamp: int,
}

/// View of an optional string.
pub open spec fn option_string_view(s: Option<String>) -> Option<Seq<char>> {
    match s {
        Some(v) => Some(v@),
        None => None,
    }
}

/// Copies an optional string.
pub fn clone_option_string(s: &Option<String>) -> (copy: Option<String>)
    ensures
        option_string_view(copy) == option_string_view(*s),
{
    match s {
        Some(v) => Some(v.clone()),
        None => None,
    }
}

/// Whether two optional strings hold the same text, or are both absent.
pub fn option_string_eq(a: &Option<String>, b: &Option<String>) -> (same: bool)
    ensures
        same == (option_string_view(*a) == option_string_view(*b)),
{
    match (a, b) {
        (Some(x), Some(y)) => *x == *y,
        (None, None) => true,
        _ => false,
    }
}

impl View for Transcription {
    type V = TranscriptionView;

    open spec fn view(&self) -> TranscriptionView {
        TranscriptionView {
            id: self.id@,
            timestamp: self.timestamp as int,
            text: self.text@,
            source_node: self.source_node@,
            memo_device_id: option_string_view(self.memo_device_id),
            synced: self.synced,
        }
    }
}

impl Transcription {
    /// The record that a row of the table of transcriptions stands for: the
    /// columns as they are, and synced unless the flag column holds 0.
    pub fn from_row(
        id: String,
        timestamp: i64,
        text: String,
        source_node: String,
        memo_device_id: Option<String>,
        synced_flag: i32,
    ) -> (record: Self)
        ensures
            record@ == (TranscriptionView {
                id: id@,
                timestamp: timestamp as int,
                text: text@,
                source_node: source_node@,
                memo_device_id: option_string_view(memo_device_id),
                synced: synced_flag != 0,
            }),
    {
        Transcription { id, timestamp, text, source_node, memo_device_id, synced: synced_flag != 0 }
    }

    /// The value of the flag column for this record: 1 if synced, else 0.
    pub fn synced_flag(&self) -> (flag: i32)
        ensures
            flag == if self.synced {
                1i32
            } else {
                0i32
            },
    {
        if self.synced {
            1
        } else {
            0
        }
    }
}

impl Clone for Transcription {
    fn clone(&self) -> (copy: Self)
        ensures
            copy@ == self@,
    {
        Transcription {
            id: self.id.clone(),
            timestamp: self.timestamp,
            text: self.text.clone(),
            source_node: self.source_node.clone(),
            memo_device_id: clone_option_string(&self.memo_device_id),
            synced: self.synced,
        }
    }
}

impl PartialEq for Transcription {
    fn eq(&self, other: &Self) -> (same: bool) {
        self.id == other.id && self.timestamp == other.timestamp && self.text == other.text
            && self.source_node == other.source_node && option_string_eq(
            &self.memo_device_id,
            &other.memo_device_id,
        ) && self.synced == other.synced
    }
}

impl PartialEqSpecImpl for Transcription {
    open spec fn obeys_eq_spec() -> bool {
        true
    }

    open spec fn eq_spec(&self, other: &Self) -> bool {
        self@ == other@
    }
}

impl View for Peer {
    type V = PeerView;

    open spec fn view(&self) -> PeerView {
        PeerView {
            node_id: self.node_id@,
            last_seen: self.last_seen as int,
            last_sync_timestamp: self.last_sync_timestamp as int,
        }
    }
}

impl Clone for Peer {
    fn clone(&self) -> (copy: Self)
        ensures
            copy@ == self@,
    {
        Peer {
            node_id: self.node_id.clone(),
            last_seen: self.last_seen,
            last_sync_timestamp: self.last_sync_timestamp,
        }
    }
}

impl PartialEq for Peer {
    fn eq(&self, other: &Self) -> (same: bool) {
        self.node_id == other.node_id && self.last_seen == other.last_seen
            && self.last_sync_timestamp == other.last_sync_timestamp
    }
}

impl PartialEqSpecImpl for Peer {
    open spec fn obeys_eq_spec() -> bool {
        true
    }

    open spec fn eq_spec(&self, other: &Self) -> bool {
        self@ == other@
    }
}

} // verus!
