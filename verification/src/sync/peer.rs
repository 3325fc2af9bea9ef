//! The replication protocol: what a node answers to its peers, and how it
//! pulls from them.
//!
//! A pull round against one peer asks for everything newer than the cursor
//! kept for that peer, enters what arrives as synced records, and then moves
//! the cursor to the greatest timestamp seen. A round that breaks off leaves
//! the cursor where it was. Transport is the caller's business.

use crate::storage::model::{
    distinct_ids, distinct_nodes, lemma_insert_keeps_well_formed, lemma_insert_membership,
    lemma_upsert_keeps_distinct, lemma_upsert_lookup, log_insert, log_since, log_well_formed,
    peer_lookup, peers_upsert, StorageView,
};
use crate::storage::store::{record_views, Storage};
use crate::storage::{Peer, PeerView, Transcription, TranscriptionView};
use crate::text::{decimal_text, u16_to_text};
use vstd::prelude::*;
use vstd::string::StringExecFns;

verus! {

/// Capacity of the queue between the store and an outgoing stream.
pub const STREAM_QUEUE_CAPACITY: usize = 100;

/// A transcription on the wire. The sync state is not sent, and an absent
/// device is sent as the empty string.
#[derive(Debug)]
pub struct WireTranscription {
    pub id: String,
    pub timestamp: i64,
    pub text: String,
    pub source_node: String,
    pub memo_device_id: String,
}

/// Mathematical value of a [`WireTranscription`].
pub struct WireTranscriptionView {
    pub id: Seq<char>,
    pub timestamp: int,
    pub text: Seq<char>,
    pub source_node: Seq<char>,
    pub memo_device_id: Seq<char>,
}

impl View for WireTranscription {
    type V = WireTranscriptionView;

    open spec fn view(&self) -> WireTranscriptionView {
        WireTranscriptionView {
            id: self.id@,
            timestamp: self.timestamp as int,
            text: self.text@,
            source_node: self.source_node@,
            memo_device_id: self.memo_device_id@,
        }
    }
}

impl Clone for WireTranscription {
    fn clone(&self) -> (copy: Self)
        ensures
            copy@ == self@,
    {
        WireTranscription {
            id: self.id.clone(),
            timestamp: self.timestamp,
            text: self.text.clone(),
            source_node: self.source_node.clone(),
            memo_device_id: self.memo_device_id.clone(),
        }
    }
}

/// The wire form of a record.
pub open spec fn to_wire_view(record: TranscriptionView) -> WireTranscriptionView {
    WireTranscriptionView {
        id: record.id,
        timestamp: record.timestamp,
        text: record.text,
        source_node: record.source_node,
        memo_device_id: match record.memo_device_id {
            Some(device) => device,
            None => Seq::empty(),
        },
    }
}

/// The record that a wire form stands for on the receiving node: the same
/// id, timestamp, text and source node, marked as synced.
pub open spec fn from_wire_view(wire: WireTranscriptionView) -> TranscriptionView {
    TranscriptionView {
        id: wire.id,
        timestamp: wire.timestamp,
        text: wire.text,
        source_node: wire.source_node,
        memo_device_id: if wire.memo_device_id.len() == 0 {
            None
        } else {
            Some(wire.memo_device_id)
        },
        synced: true,
    }
}

/// Views of a list of wire records, in the same order.
pub open spec fn wire_views(records: Seq<WireTranscription>) -> Seq<WireTranscriptionView> {
    Seq::new(records.len(), |i: int| records[i]@)
}

/// The wire form of a record.
pub fn to_wire(record: &Transcription) -> (wire: WireTranscription)
    ensures
        wire@ == to_wire_view(record@),
{
    WireTranscription {
        id: record.id.clone(),
        timestamp: record.timestamp,
        text: record.text.clone(),
        source_node: record.source_node.clone(),
        memo_device_id: match &record.memo_device_id {
            Some(device) => device.clone(),
            None => String::new(),
        },
    }
}

/// The record to store for what a peer sent.
pub fn from_wire(wire: WireTranscription) -> (record: Transcription)
    ensures
        record@ == from_wire_view(wire@),
{
    let has_device = wire.memo_device_id.as_str().unicode_len() > 0;
    Transcription {
        id: wire.id,
        timestamp: wire.timestamp,
        text: wire.text,
        source_node: wire.source_node,
        memo_device_id: if has_device {
            Some(wire.memo_device_id)
        } else {
            None
        },
        synced: true,
    }
}

/// A record that crosses the wire arrives with everything but its sync
/// state, which becomes `true`, and a device given as the empty string,
/// which becomes absent.
pub proof fn lemma_wire_round_trip(record: TranscriptionView)
    ensures
        from_wire_view(to_wire_view(record)).id == record.id,
        from_wire_view(to_wire_view(record)).timestamp == record.timestamp,
        from_wire_view(to_wire_view(record)).text == record.text,
        from_wire_view(to_wire_view(record)).source_node == record.source_node,
        from_wire_view(to_wire_view(record)).synced,
        from_wire_view(to_wire_view(record)).memo_device_id == match record.memo_device_id {
            Some(device) => if device.len() == 0 {
                None
            } else {
                Some(device)
            },
            None => None,
        },
{
}

/// Answer to a ping.
#[derive(Debug)]
pub struct PingResponse {
    pub node_id: String,
    pub timestamp: i64,
}

/// The answer to a ping: this node's id and the current time.
pub fn ping_response(node_id: &str, now: i64) -> (response: PingResponse)
    ensures
        response.node_id@ == node_id@,
        response.timestamp == now,
{
    PingResponse { node_id: node_id.to_owned(), timestamp: now }
}

/// The address the replication server listens on: every interface, at `port`.
pub fn listen_endpoint(port: u16) -> (endpoint: String)
    ensures
        endpoint@ == "0.0.0.0:"@ + decimal_text(port as nat),
{
    let mut endpoint = "0.0.0.0:".to_owned();
    let port_text = u16_to_text(port);
    endpoint.append(port_text.as_str());
    endpoint
}

/// What the server streams for a request: every record with a timestamp
/// strictly greater than `since`, oldest first, in wire form. Records that
/// arrived by replication are among them, so that a node passes on what it
/// did not create.
pub fn transcriptions_since(store: &Storage, since: i64) -> (stream: Vec<WireTranscription>)
    ensures
        wire_views(stream@) == answer_since(store@, since as int),
{
    let records = store.get_transcriptions_since(since);
    let ghost wanted = log_since(store@.transcriptions, since as int);
    let mut stream: Vec<WireTranscription> = Vec::new();
    let mut i: usize = 0;
    while i < records.len()
        invariant
            i <= records@.len(),
            record_views(records@) == wanted,
            stream@.len() == i,
            forall|j: int| 0 <= j < i ==> (#[trigger] stream@[j])@ == to_wire_view(wanted[j]),
        decreases records@.len() - i,
    {
        assert(record_views(records@)[i as int] == records@[i as int]@);
        stream.push(to_wire(&records[i]));
        i += 1;
    }
    assert(wire_views(stream@) =~= wanted.map_values(
        |record: TranscriptionView| to_wire_view(record),
    ));
    stream
}

/// The log after the records of `batch` were entered one by one, in order.
pub open spec fn log_insert_all(records: Seq<TranscriptionView>, batch: Seq<TranscriptionView>) -> Seq<
    TranscriptionView,
>
    decreases batch.len(),
{
    if batch.len() == 0 {
        records
    } else {
        log_insert(log_insert_all(records, batch.drop_last()), batch.last())
    }
}

/// What a node stores for a stream of wire records.
pub open spec fn received_views(stream: Seq<WireTranscriptionView>) -> Seq<TranscriptionView> {
    Seq::new(stream.len(), |i: int| from_wire_view(stream[i]))
}

/// The greatest of `floor` and the timestamps of `stream`.
pub open spec fn latest_timestamp(floor: int, stream: Seq<WireTranscriptionView>) -> int
    decreases stream.len(),
{
    if stream.len() == 0 {
        floor
    } else {
        let before = latest_timestamp(floor, stream.drop_last());
        if stream.last().timestamp > before {
            stream.last().timestamp
        } else {
            before
        }
    }
}

/// The lower bound of a pull: the cursor kept for the peer, or 0 if none is
/// kept.
pub open spec fn cursor_of(peer: Option<PeerView>) -> int {
    match peer {
        Some(cursor) => cursor.last_sync_timestamp,
        None => 0,
    }
}

/// Server side of a push: counts what a peer sends.
#[derive(Debug)]
pub struct PushSession {
    received: u32,
}

impl PushSession {
    /// Number of records taken so far.
    pub closed spec fn received(&self) -> nat {
        self.received as nat
    }

    /// A session that has taken nothing yet.
    pub fn new() -> (session: Self)
        ensures
            session.received() == 0,
    {
        PushSession { received: 0 }
    }

    /// Whether the count can still grow.
    pub fn has_room(&self) -> (room: bool)
        ensures
            room == (self.received() < u32::MAX),
    {
        self.received < u32::MAX
    }

    /// Takes one pushed record: enters it into the store as synced, counts
    /// it, and hands it back for the client fan-out.
    pub fn on_record(&mut self, store: &mut Storage, wire: WireTranscription) -> (record:
        Transcription)
        requires
            old(self).received() < u32::MAX,
        ensures
            record@ == from_wire_view(wire@),
            final(store)@.transcriptions == log_insert(
                old(store)@.transcriptions,
                from_wire_view(wire@),
            ),
            final(store)@.peers == old(store)@.peers,
            final(store)@.well_formed(),
            final(self).received() == old(self).received() + 1,
    {
        let record = from_wire(wire);
        store.insert_transcription(&record);
        self.received = self.received + 1;
        record
    }

    /// The count to answer with when the stream has ended.
    pub fn finish(self) -> (received: u32)
        ensures
            received == self.received(),
    {
        self.received
    }
}

/// How a pull round ended.
#[derive(Debug)]
pub struct RoundSummary {
    /// The cursor as it was stored.
    pub cursor: Peer,
    /// Number of records taken; it stops at `usize::MAX`.
    pub taken: usize,
}

/// Client side of a pull from one peer.
#[derive(Debug)]
pub struct SyncRound {
    node_id: String,
    since: i64,
    latest: i64,
    count: usize,
}

/// Mathematical value of a [`SyncRound`].
pub struct SyncRoundView {
    /// The peer pulled from.
    pub node_id: Seq<char>,
    /// The lower bound that was asked for.
    pub since: int,
    /// The greatest of `since` and the timestamps taken so far.
    pub latest: int,
    /// Number of records taken so far; the count stops at `usize::MAX`.
    pub taken: nat,
}

impl View for SyncRound {
    type V = SyncRoundView;

    closed spec fn view(&self) -> SyncRoundView {
        SyncRoundView {
            node_id: self.node_id@,
            since: self.since as int,
            latest: self.latest as int,
            taken: self.count as nat,
        }
    }
}

impl SyncRound {
    /// Begins a round against the peer `node_id`, from the cursor kept for
    /// it, or from 0 if none is kept.
    pub fn begin(store: &Storage, node_id: &str) -> (round: Self)
        ensures
            round@.node_id == node_id@,
            round@.since == cursor_of(peer_lookup(store@.peers, node_id@)),
            round@.latest == round@.since,
            round@.taken == 0,
    {
        let since = match store.get_peer(node_id) {
            Some(cursor) => cursor.last_sync_timestamp,
            None => 0,
        };
        SyncRound { node_id: node_id.to_owned(), since, latest: since, count: 0 }
    }

    /// The lower bound to ask the peer for.
    pub fn since(&self) -> (since: i64)
        ensures
            since == self@.since,
    {
        self.since
    }

    /// Takes one record of the peer's stream: enters it into the store as
    /// synced, remembers its timestamp if it is the greatest so far, and
    /// hands the stored record back.
    pub fn on_record(&mut self, store: &mut Storage, wire: WireTranscription) -> (record:
        Transcription)
        ensures
            record@ == from_wire_view(wire@),
            final(store)@.transcriptions == log_insert(
                old(store)@.transcriptions,
                from_wire_view(wire@),
            ),
            final(store)@.peers == old(store)@.peers,
            final(store)@.well_formed(),
            final(self)@.node_id == old(self)@.node_id,
            final(self)@.since == old(self)@.since,
            final(self)@.latest == if wire@.timestamp > old(self)@.latest {
                wire@.timestamp
            } else {
                old(self)@.latest
            },
            final(self)@.taken == if old(self)@.taken < usize::MAX {
                old(self)@.taken + 1
            } else {
                old(self)@.taken
            },
    {
        let timestamp = wire.timestamp;
        let record = from_wire(wire);
        store.insert_transcription(&record);
        if timestamp > self.latest {
            self.latest = timestamp;
        }
        if self.count < usize::MAX {
            self.count = self.count + 1;
        }
        record
    }

    /// The cursor that [`finish`](Self::finish) stores if the round ends
    /// now, at time `now`.
    pub fn cursor(&self, now: i64) -> (cursor: Peer)
        ensures
            cursor@ == (PeerView {
                node_id: self@.node_id,
                last_seen: now as int,
                last_sync_timestamp: self@.latest,
            }),
    {
        Peer { node_id: self.node_id.clone(), last_seen: now, last_sync_timestamp: self.latest }
    }

    /// The stream has ended normally: moves the cursor of the peer to the
    /// greatest timestamp seen and notes `now` as the time of the exchange.
    /// Returns the cursor as stored and the number of records taken.
    pub fn finish(self, store: &mut Storage, now: i64) -> (summary: RoundSummary)
        ensures
            summary.cursor@ == (PeerView {
                node_id: self@.node_id,
                last_seen: now as int,
                last_sync_timestamp: self@.latest,
            }),
            summary.taken == self@.taken,
            final(store)@.peers == peers_upsert(old(store)@.peers, summary.cursor@),
            final(store)@.transcriptions == old(store)@.transcriptions,
            final(store)@.well_formed(),
    {
        let cursor = Peer { node_id: self.node_id, last_seen: now, last_sync_timestamp: self.latest };
        store.upsert_peer(&cursor);
        RoundSummary { cursor, taken: self.count }
    }
}

/// The state of a store after a complete pull round against `node_id` in
/// which `stream` arrived, ended at time `now`.
pub open spec fn after_pull_round(
    state: StorageView,
    node_id: Seq<char>,
    stream: Seq<WireTranscriptionView>,
    now: int,
) -> StorageView {
    StorageView {
        transcriptions: log_insert_all(state.transcriptions, received_views(stream)),
        peers: peers_upsert(
            state.peers,
            PeerView {
                node_id,
                last_seen: now,
                last_sync_timestamp: latest_timestamp(
                    cursor_of(peer_lookup(state.peers, node_id)),
                    stream,
                ),
            },
        ),
    }
}

/// One complete pull round: enters every record of `stream` as synced, in
/// order, then moves the cursor of the peer `node_id`.
pub fn pull_round(store: &mut Storage, node_id: &str, stream: Vec<WireTranscription>, now: i64) -> (summary:
    RoundSummary)
    ensures
        final(store)@ == after_pull_round(old(store)@, node_id@, wire_views(stream@), now as int),
        final(store)@.well_formed(),
        summary.cursor@ == (PeerView {
            node_id: node_id@,
            last_seen: now as int,
            last_sync_timestamp: latest_timestamp(
                cursor_of(peer_lookup(old(store)@.peers, node_id@)),
                wire_views(stream@),
            ),
        }),
        summary.taken == stream@.len(),
{
    let mut round = SyncRound::begin(store, node_id);
    let ghost all = wire_views(stream@);
    let ghost start = store@;
    let announced: usize = stream.len();
    assert(received_views(all.take(0)) =~= Seq::<TranscriptionView>::empty());
    for wire in it: stream
        invariant
            wire_views(it.seq()) == all,
            store@.transcriptions == log_insert_all(
                start.transcriptions,
                received_views(all.take(it.index() as int)),
            ),
            store@.peers == start.peers,
            round@.node_id == node_id@,
            round@.since == cursor_of(peer_lookup(start.peers, node_id@)),
            round@.latest == latest_timestamp(round@.since, all.take(it.index() as int)),
            round@.taken == it.index(),
            it.index() <= all.len() == announced,
    {
        proof {
            let done = all.take(it.index() as int);
            let next = all.take(it.index() + 1);
            assert(all[it.index() as int] == wire@);
            assert(next.drop_last() =~= done);
            assert(next.last() == wire@);
            assert(received_views(next).drop_last() =~= received_views(done));
            assert(received_views(next).last() == from_wire_view(wire@));
        }
        let _ = round.on_record(store, wire);
    }
    assert(all.take(all.len() as int) =~= all);
    round.finish(store, now)
}

/// The greatest timestamp of a round is never below the bound it started
/// from.
pub proof fn lemma_latest_at_least_floor(floor: int, stream: Seq<WireTranscriptionView>)
    ensures
        latest_timestamp(floor, stream) >= floor,
        forall|i: int|
            0 <= i < stream.len() ==> latest_timestamp(floor, stream) >= (
            #[trigger] stream[i]).timestamp,
    decreases stream.len(),
{
    if stream.len() > 0 {
        lemma_latest_at_least_floor(floor, stream.drop_last());
        assert forall|i: int| 0 <= i < stream.len() implies latest_timestamp(floor, stream) >= (
        #[trigger] stream[i]).timestamp by {
            if i < stream.len() - 1 {
                assert(stream.drop_last()[i] == stream[i]);
            }
        }
    }
}

/// Entering a batch into a valid log leaves a valid log.
pub proof fn lemma_insert_all_keeps_well_formed(
    records: Seq<TranscriptionView>,
    batch: Seq<TranscriptionView>,
)
    requires
        log_well_formed(records),
    ensures
        log_well_formed(log_insert_all(records, batch)),
    decreases batch.len(),
{
    if batch.len() > 0 {
        lemma_insert_all_keeps_well_formed(records, batch.drop_last());
        lemma_insert_keeps_well_formed(log_insert_all(records, batch.drop_last()), batch.last());
    }
}

/// A complete pull round leaves a valid store valid.
pub proof fn lemma_pull_round_keeps_well_formed(
    state: StorageView,
    node_id: Seq<char>,
    stream: Seq<WireTranscriptionView>,
    now: int,
)
    requires
        state.well_formed(),
    ensures
        after_pull_round(state, node_id, stream, now).well_formed(),
{
    lemma_insert_all_keeps_well_formed(state.transcriptions, received_views(stream));
    let cursor = PeerView {
        node_id,
        last_seen: now,
        last_sync_timestamp: latest_timestamp(cursor_of(peer_lookup(state.peers, node_id)), stream),
    };
    lemma_upsert_keeps_distinct(state.peers, cursor);
}

/// Cursor monotonicity, one round. After a complete pull round against a
/// peer, the cursor kept for that peer is at least what it was before (0
/// where none was kept) and at least every timestamp that arrived, and the
/// cursor of every other peer is as it was.
pub proof fn lemma_pull_round_moves_cursor_forward(
    state: StorageView,
    node_id: Seq<char>,
    stream: Seq<WireTranscriptionView>,
    now: int,
    other_node: Seq<char>,
)
    requires
        distinct_nodes(state.peers),
    ensures
        cursor_of(peer_lookup(after_pull_round(state, node_id, stream, now).peers, node_id))
            >= cursor_of(peer_lookup(state.peers, node_id)),
        forall|i: int|
            0 <= i < stream.len() ==> cursor_of(
                peer_lookup(after_pull_round(state, node_id, stream, now).peers, node_id),
            ) >= (#[trigger] stream[i]).timestamp,
        other_node != node_id ==> peer_lookup(
            after_pull_round(state, node_id, stream, now).peers,
            other_node,
        ) == peer_lookup(state.peers, other_node),
{
    let floor = cursor_of(peer_lookup(state.peers, node_id));
    let cursor = PeerView {
        node_id,
        last_seen: now,
        last_sync_timestamp: latest_timestamp(floor, stream),
    };
    lemma_latest_at_least_floor(floor, stream);
    lemma_upsert_lookup(state.peers, cursor, node_id);
    lemma_upsert_lookup(state.peers, cursor, other_node);
}

/// One pull round as a trace sees it: the peer, what arrived, and when the
/// round ended.
pub struct RoundView {
    pub node_id: Seq<char>,
    pub stream: Seq<WireTranscriptionView>,
    pub now: int,
}

/// The state of a store after a sequence of complete pull rounds.
pub open spec fn after_rounds(state: StorageView, rounds: Seq<RoundView>) -> StorageView
    decreases rounds.len(),
{
    if rounds.len() == 0 {
        state
    } else {
        after_pull_round(
            after_rounds(state, rounds.drop_last()),
            rounds.last().node_id,
            rounds.last().stream,
            rounds.last().now,
        )
    }
}

/// A sequence of pull rounds leaves a valid store valid.
pub proof fn lemma_rounds_keep_well_formed(state: StorageView, rounds: Seq<RoundView>)
    requires
        state.well_formed(),
    ensures
        after_rounds(state, rounds).well_formed(),
    decreases rounds.len(),
{
    if rounds.len() > 0 {
        lemma_rounds_keep_well_formed(state, rounds.drop_last());
        lemma_pull_round_keeps_well_formed(
            after_rounds(state, rounds.drop_last()),
            rounds.last().node_id,
            rounds.last().stream,
            rounds.last().now,
        );
    }
}

/// Cursor monotonicity. Over any sequence of complete pull rounds, against
/// whichever peers, the cursor kept for a peer never decreases: after more
/// rounds it is at least what it was after fewer.
pub proof fn lemma_cursor_monotone(
    state: StorageView,
    rounds: Seq<RoundView>,
    fewer: int,
    node_id: Seq<char>,
)
    requires
        state.well_formed(),
        0 <= fewer <= rounds.len(),
    ensures
        cursor_of(peer_lookup(after_rounds(state, rounds.take(fewer)).peers, node_id))
            <= cursor_of(peer_lookup(after_rounds(state, rounds).peers, node_id)),
    decreases rounds.len() - fewer,
{
    if fewer == rounds.len() {
        assert(rounds.take(fewer) =~= rounds);
    } else {
        lemma_cursor_monotone(state, rounds, fewer + 1, node_id);
        let shorter = rounds.take(fewer);
        let longer = rounds.take(fewer + 1);
        assert(longer.drop_last() =~= shorter);
        let before = after_rounds(state, shorter);
        lemma_rounds_keep_well_formed(state, shorter);
        let round = longer.last();
        lemma_pull_round_moves_cursor_forward(
            before,
            round.node_id,
            round.stream,
            round.now,
            node_id,
        );
    }
}

/// Whether every record of `batch` is in `records`.
pub open spec fn holds_all(records: Seq<TranscriptionView>, batch: Seq<TranscriptionView>) -> bool {
    forall|i: int| 0 <= i < batch.len() ==> records.contains(#[trigger] batch[i])
}

/// Entering a batch of records with distinct ids leaves every one of them
/// in the log.
pub proof fn lemma_insert_all_holds_batch(
    records: Seq<TranscriptionView>,
    batch: Seq<TranscriptionView>,
)
    requires
        distinct_ids(batch),
    ensures
        holds_all(log_insert_all(records, batch), batch),
    decreases batch.len(),
{
    if batch.len() > 0 {
        let earlier = batch.drop_last();
        assert forall|i: int, j: int| 0 <= i < j < earlier.len() implies (
        #[trigger] earlier[i]).id != (#[trigger] earlier[j]).id by {
            assert(earlier[i] == batch[i] && earlier[j] == batch[j]);
        }
        lemma_insert_all_holds_batch(records, earlier);
        let before = log_insert_all(records, earlier);
        let after = log_insert_all(records, batch);
        lemma_insert_membership(before, batch.last());
        assert forall|i: int| 0 <= i < batch.len() implies after.contains(#[trigger] batch[i]) by {
            if i < batch.len() - 1 {
                assert(earlier[i] == batch[i]);
                assert(before.contains(earlier[i]));
                let k = choose|k: int| 0 <= k < before.len() && before[k] == batch[i];
                assert(batch[i].id != batch[batch.len() - 1].id);
                assert(after.contains(before[k]));
            }
        }
    }
}

/// What one round delivers. Let a peer answer a pull with `stream`, in
/// which no id occurs twice (as in every answer of a valid store). After
/// the round the pulling node holds every record of the stream, marked as
/// synced and otherwise as sent.
pub proof fn lemma_pull_round_delivers(
    state: StorageView,
    node_id: Seq<char>,
    stream: Seq<WireTranscriptionView>,
    now: int,
)
    requires
        forall|i: int, j: int|
            0 <= i < j < stream.len() ==> (#[trigger] stream[i]).id != (#[trigger] stream[j]).id,
    ensures
        forall|i: int|
            0 <= i < stream.len() ==> after_pull_round(
                state,
                node_id,
                stream,
                now,
            ).transcriptions.contains(from_wire_view(#[trigger] stream[i])),
{
    let batch = received_views(stream);
    assert forall|i: int, j: int| 0 <= i < j < batch.len() implies (#[trigger] batch[i]).id != (
    #[trigger] batch[j]).id by {
        assert(stream[i].id != stream[j].id);
    }
    lemma_insert_all_holds_batch(state.transcriptions, batch);
    let after = after_pull_round(state, node_id, stream, now).transcriptions;
    assert forall|i: int| 0 <= i < stream.len() implies after.contains(
        from_wire_view(#[trigger] stream[i]),
    ) by {
        assert(batch[i] == from_wire_view(stream[i]));
    }
}

/// The answer of a store to a pull with the lower bound `since`, as the
/// stream of wire records that [`transcriptions_since`] gives.
pub open spec fn answer_since(state: StorageView, since: int) -> Seq<WireTranscriptionView> {
    log_since(state.transcriptions, since).map_values(
        |record: TranscriptionView| to_wire_view(record),
    )
}

/// What a pull brings. Let a node with a valid store `source` answer the
/// pull of a node with the store `target`, which keeps its cursor for the
/// source under `source_id`. After the round the target holds every record
/// of the source that is newer than the cursor was, as it crosses the wire,
/// and the cursor has reached the timestamp of each of them.
pub proof fn lemma_pull_brings_newer_records(
    source: StorageView,
    target: StorageView,
    source_id: Seq<char>,
    now: int,
)
    requires
        source.well_formed(),
        distinct_nodes(target.peers),
    ensures
        forall|i: int|
            0 <= i < source.transcriptions.len() && (#[trigger] source.transcriptions[i]).timestamp
                > cursor_of(peer_lookup(target.peers, source_id)) ==> after_pull_round(
                target,
                source_id,
                answer_since(source, cursor_of(peer_lookup(target.peers, source_id))),
                now,
            ).transcriptions.contains(from_wire_view(to_wire_view(source.transcriptions[i])))
                && cursor_of(
                peer_lookup(
                    after_pull_round(
                        target,
                        source_id,
                        answer_since(source, cursor_of(peer_lookup(target.peers, source_id))),
                        now,
                    ).peers,
                    source_id,
                ),
            ) >= source.transcriptions[i].timestamp,
{
    let since = cursor_of(peer_lookup(target.peers, source_id));
    let found = log_since(source.transcriptions, since);
    let stream = answer_since(source, since);
    let after = after_pull_round(target, source_id, stream, now);
    crate::storage::model::lemma_since_meaning(source.transcriptions, since);
    assert forall|i: int, j: int| 0 <= i < j < stream.len() implies (#[trigger] stream[i]).id != (
    #[trigger] stream[j]).id by {
        assert(found[i].id != found[j].id);
    }
    lemma_pull_round_delivers(target, source_id, stream, now);
    lemma_pull_round_moves_cursor_forward(target, source_id, stream, now, source_id);
    assert forall|i: int|
        0 <= i < source.transcriptions.len() && (#[trigger] source.transcriptions[i]).timestamp
            > since implies after.transcriptions.contains(
        from_wire_view(to_wire_view(source.transcriptions[i])),
    ) && cursor_of(peer_lookup(after.peers, source_id)) >= source.transcriptions[i].timestamp by {
        let record = source.transcriptions[i];
        assert(found.contains(record));
        let k = choose|k: int| 0 <= k < found.len() && found[k] == record;
        assert(stream[k] == to_wire_view(record));
        assert(stream[k].timestamp == record.timestamp);
    }
}

/// How to reach a peer.
#[derive(Debug)]
pub struct PeerConnection {
    pub node_id: String,
    pub address: String,
    pub grpc_port: u16,
}

/// Mathematical value of a [`PeerConnection`].
pub struct PeerConnectionView {
    pub node_id: Seq<char>,
    pub address: Seq<char>,
    pub grpc_port: u16,
}

impl View for PeerConnection {
    type V = PeerConnectionView;

    open spec fn view(&self) -> PeerConnectionView {
        PeerConnectionView {
            node_id: self.node_id@,
            address: self.address@,
            grpc_port: self.grpc_port,
        }
    }
}

impl Clone for PeerConnection {
    fn clone(&self) -> (copy: Self)
        ensures
            copy@ == self@,
    {
        PeerConnection {
            node_id: self.node_id.clone(),
            address: self.address.clone(),
            grpc_port: self.grpc_port,
        }
    }
}

impl PeerConnection {
    /// The URL of the peer's replication server: `http://address:port`.
    pub fn url(&self) -> (url: String)
        ensures
            url@ == "http://"@ + self.address@ + ":"@ + decimal_text(self.grpc_port as nat),
    {
        let mut url = "http://".to_owned();
        url.append(self.address.as_str());
        url.append(":");
        let port = u16_to_text(self.grpc_port);
        url.append(port.as_str());
        url
    }
}

/// Views of a list of connections, in the same order.
pub open spec fn connection_views(entries: Seq<PeerConnection>) -> Seq<PeerConnectionView> {
    Seq::new(entries.len(), |i: int| entries[i]@)
}

/// Whether the table knows the node `node_id`.
pub open spec fn knows_node(entries: Seq<PeerConnectionView>, node_id: Seq<char>) -> bool {
    exists|i: int| 0 <= i < entries.len() && (#[trigger] entries[i]).node_id == node_id
}

/// Whether no node is entered twice.
pub open spec fn one_entry_per_node(entries: Seq<PeerConnectionView>) -> bool {
    forall|i: int, j: int|
        0 <= i < j < entries.len() ==> (#[trigger] entries[i]).node_id != (
        #[trigger] entries[j]).node_id
}

/// The table after `entry` was learned: a node that was known keeps its
/// place and gets the new address and port, a new node is added at the end.
pub open spec fn table_learn(entries: Seq<PeerConnectionView>, entry: PeerConnectionView) -> Seq<
    PeerConnectionView,
> {
    if knows_node(entries, entry.node_id) {
        Seq::new(
            entries.len(),
            |i: int|
                if entries[i].node_id == entry.node_id {
                    entry
                } else {
                    entries[i]
                },
        )
    } else {
        entries.push(entry)
    }
}

/// Index of the entry of the node `node_id`.
fn find_connection(entries: &Vec<PeerConnection>, node_id: &str) -> (at: Option<usize>)
    ensures
        match at {
            Some(i) => i < entries@.len() && entries@[i as int]@.node_id == node_id@,
            None => forall|j: int|
                0 <= j < entries@.len() ==> (#[trigger] entries@[j])@.node_id != node_id@,
        },
{
    let mut i: usize = 0;
    while i < entries.len()
        invariant
            i <= entries@.len(),
            forall|j: int| 0 <= j < i ==> (#[trigger] entries@[j])@.node_id != node_id@,
        decreases entries@.len() - i,
    {
        if crate::text::text_eq(entries[i].node_id.as_str(), node_id) {
            return Some(i);
        }
        i += 1;
    }
    None
}

/// The peers that discovery has reported, one entry per node. An entry is
/// never taken out: a peer that is gone fails to connect and is tried again.
pub struct PeerTable {
    entries: Vec<PeerConnection>,
}

impl View for PeerTable {
    type V = Seq<PeerConnectionView>;

    closed spec fn view(&self) -> Seq<PeerConnectionView> {
        connection_views(self.entries@)
    }
}

impl PeerTable {
    #[verifier::type_invariant]
    spec fn valid(&self) -> bool {
        one_entry_per_node(self@)
    }

    /// The empty table.
    pub fn new() -> (table: Self)
        ensures
            table@ == Seq::<PeerConnectionView>::empty(),
    {
        let table = PeerTable { entries: Vec::new() };
        assert(table@ =~= Seq::<PeerConnectionView>::empty());
        table
    }

    /// Learns where the node `node_id` is reached, in place of what was
    /// known of it before.
    pub fn add_peer(&mut self, node_id: String, address: String, grpc_port: u16)
        ensures
            final(self)@ == table_learn(
                old(self)@,
                PeerConnectionView { node_id: node_id@, address: address@, grpc_port },
            ),
            one_entry_per_node(final(self)@),
    {
        proof {
            use_type_invariant(&*self);
        }
        let ghost before = self@;
        let entry = PeerConnection { node_id, address, grpc_port };
        let mut entries: Vec<PeerConnection> = Vec::new();
        std::mem::swap(&mut self.entries, &mut entries);
        let found = find_connection(&entries, entry.node_id.as_str());
        match found {
            Some(at) => {
                proof {
                    assert(before[at as int] == entries@[at as int]@);
                    assert(knows_node(before, entry@.node_id));
                    let after_views = connection_views(entries@.update(at as int, entry));
                    assert forall|k: int| 0 <= k < before.len() implies #[trigger] after_views[k]
                        == if before[k].node_id == entry@.node_id {
                        entry@
                    } else {
                        before[k]
                    } by {
                        if k < at {
                            assert(before[k].node_id != before[at as int].node_id);
                        } else if at < k {
                            assert(before[at as int].node_id != before[k].node_id);
                        }
                    }
                    assert(after_views =~= table_learn(before, entry@));
                    assert forall|a: int, b: int| 0 <= a < b < after_views.len() implies (
                    #[trigger] after_views[a]).node_id != (#[trigger] after_views[b]).node_id by {
                        assert(before[a].node_id != before[b].node_id);
                    }
                }
                entries.set(at, entry);
            },
            None => {
                proof {
                    assert forall|k: int| 0 <= k < before.len() implies (
                    #[trigger] before[k]).node_id != entry@.node_id by {
                        assert(before[k] == entries@[k]@);
                    }
                    assert(!knows_node(before, entry@.node_id));
                    let after_views = connection_views(entries@.push(entry));
                    assert(after_views =~= before.push(entry@));
                    assert forall|a: int, b: int| 0 <= a < b < after_views.len() implies (
                    #[trigger] after_views[a]).node_id != (#[trigger] after_views[b]).node_id by {
                        if b < before.len() {
                            assert(before[a].node_id != before[b].node_id);
                        } else {
                            assert(after_views[a] == before[a]);
                        }
                    }
                }
                entries.push(entry);
            },
        }
        self.entries = entries;
    }

    /// The peers to pull from in one sync interval, one after the other.
    pub fn peers(&self) -> (all: Vec<PeerConnection>)
        ensures
            connection_views(all@) == self@,
            one_entry_per_node(self@),
    {
        proof {
            use_type_invariant(self);
        }
        let mut all: Vec<PeerConnection> = Vec::new();
        let mut i: usize = 0;
        while i < self.entries.len()
            invariant
                i <= self.entries@.len(),
                all@.len() == i,
                forall|j: int| 0 <= j < i ==> (#[trigger] all@[j])@ == self.entries@[j]@,
            decreases self.entries@.len() - i,
        {
            all.push(self.entries[i].clone());
            i += 1;
        }
        assert(connection_views(all@) =~= connection_views(self.entries@));
        all
    }
}

/// After a node was learned, the table holds what was learned of it, and
/// holds of every other node what it held before: discovery overwrites and
/// never removes.
pub proof fn lemma_learned_peer_is_known(
    entries: Seq<PeerConnectionView>,
    entry: PeerConnectionView,
)
    requires
        one_entry_per_node(entries),
    ensures
        table_learn(entries, entry).contains(entry),
        forall|i: int|
            0 <= i < entries.len() && (#[trigger] entries[i]).node_id != entry.node_id
                ==> table_learn(entries, entry).contains(entries[i]),
        forall|i: int|
            0 <= i < table_learn(entries, entry).len() ==> (#[trigger] table_learn(
                entries,
                entry,
            )[i]) == entry || entries.contains(table_learn(entries, entry)[i]),
{
    let learned = table_learn(entries, entry);
    if knows_node(entries, entry.node_id) {
        let at = choose|i: int| 0 <= i < entries.len() && (#[trigger] entries[i]).node_id
            == entry.node_id;
        assert(learned[at] == entry);
        assert forall|i: int| 0 <= i < entries.len() && (#[trigger] entries[i]).node_id
            != entry.node_id implies learned.contains(entries[i]) by {
            assert(learned[i] == entries[i]);
        }
        assert forall|i: int| 0 <= i < learned.len() implies (#[trigger] learned[i]) == entry
            || entries.contains(learned[i]) by {
            if entries[i].node_id != entry.node_id {
                assert(learned[i] == entries[i]);
            }
        }
    } else {
        assert(learned[entries.len() as int] == entry);
        assert forall|i: int| 0 <= i < entries.len() && (#[trigger] entries[i]).node_id
            != entry.node_id implies learned.contains(entries[i]) by {
            assert(learned[i] == entries[i]);
        }
        assert forall|i: int| 0 <= i < learned.len() implies (#[trigger] learned[i]) == entry
            || entries.contains(learned[i]) by {
            if i < entries.len() {
                assert(learned[i] == entries[i]);
            }
        }
    }
}

} // verus!
