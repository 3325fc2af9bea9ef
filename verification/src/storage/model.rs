//! The store as a mathematical object: a log of records in timestamp
//! order and a list of cursors, with the operations on them and the laws
//! that hold of these.

use crate::filters::{
    lemma_filter_back, lemma_filter_drops_all, lemma_filter_front, lemma_filter_inherits,
    lemma_filter_keeps_all,
};
use crate::storage::{PeerView, TranscriptionView};
use vstd::prelude::*;

verus! {

/// Records whose id is not `id`.
pub open spec fn has_other_id(id: Seq<char>) -> spec_fn(TranscriptionView) -> bool {
    |record: TranscriptionView| record.id != id
}

/// Records with a timestamp of at most `timestamp`.
pub open spec fn not_after(timestamp: int) -> spec_fn(TranscriptionView) -> bool {
    |record: TranscriptionView| record.timestamp <= timestamp
}

/// Records with a timestamp greater than `timestamp`.
pub open spec fn after(timestamp: int) -> spec_fn(TranscriptionView) -> bool {
    |record: TranscriptionView| record.timestamp > timestamp
}

/// Records that are marked as synced.
pub open spec fn is_synced() -> spec_fn(TranscriptionView) -> bool {
    |record: TranscriptionView| record.synced
}

/// Cursors of nodes other than `node_id`.
pub open spec fn is_other_node(node_id: Seq<char>) -> spec_fn(PeerView) -> bool {
    |peer: PeerView| peer.node_id != node_id
}

/// Whether the timestamps never decrease along the log.
pub open spec fn sorted_by_timestamp(records: Seq<TranscriptionView>) -> bool {
    forall|i: int, j: int|
        0 <= i <= j < records.len() ==> (#[trigger] records[i]).timestamp <= (
        #[trigger] records[j]).timestamp
}

/// Whether no id occurs twice in the log.
pub open spec fn distinct_ids(records: Seq<TranscriptionView>) -> bool {
    forall|i: int, j: int|
        0 <= i < j < records.len() ==> (#[trigger] records[i]).id != (#[trigger] records[j]).id
}

/// Whether no node has two cursors.
pub open spec fn distinct_nodes(peers: Seq<PeerView>) -> bool {
    forall|i: int, j: int|
        0 <= i < j < peers.len() ==> (#[trigger] peers[i]).node_id != (#[trigger] peers[j]).node_id
}

/// The log after an upsert of `record`: any record with the same id is gone,
/// and `record` stands behind the records that are not newer than it.
pub open spec fn log_insert(records: Seq<TranscriptionView>, record: TranscriptionView) -> Seq<
    TranscriptionView,
> {
    let rest = records.filter(has_other_id(record.id));
    rest.filter(not_after(record.timestamp)).push(record) + rest.filter(after(record.timestamp))
}

/// The records with a timestamp strictly greater than `since`, in log order.
pub open spec fn log_since(records: Seq<TranscriptionView>, since: int) -> Seq<TranscriptionView> {
    records.filter(after(since))
}

/// The last `limit` records of the log, the last one first.
pub open spec fn log_recent(records: Seq<TranscriptionView>, limit: nat) -> Seq<TranscriptionView> {
    let count = if limit <= records.len() {
        limit
    } else {
        records.len()
    };
    Seq::new(count, |i: int| records[records.len() - 1 - i])
}

/// `record`, marked as synced if its id is `id`.
pub open spec fn marked(record: TranscriptionView, id: Seq<char>) -> TranscriptionView {
    if record.id == id {
        TranscriptionView { synced: true, ..record }
    } else {
        record
    }
}

/// The log with the record of id `id` marked as synced.
pub open spec fn log_mark_synced(records: Seq<TranscriptionView>, id: Seq<char>) -> Seq<
    TranscriptionView,
> {
    Seq::new(records.len(), |i: int| marked(records[i], id))
}

/// The cursors after an upsert of `peer`: any cursor of the same node is
/// gone, and `peer` stands at the end.
pub open spec fn peers_upsert(peers: Seq<PeerView>, peer: PeerView) -> Seq<PeerView> {
    peers.filter(is_other_node(peer.node_id)).push(peer)
}

/// Whether a cursor for `node_id` is kept.
pub open spec fn holds_peer(peers: Seq<PeerView>, node_id: Seq<char>) -> bool {
    exists|i: int| 0 <= i < peers.len() && (#[trigger] peers[i]).node_id == node_id
}

/// The cursor kept for `node_id`, if there is one.
pub open spec fn peer_lookup(peers: Seq<PeerView>, node_id: Seq<char>) -> Option<PeerView> {
    if holds_peer(peers, node_id) {
        Some(peers[choose|i: int| 0 <= i < peers.len() && (#[trigger] peers[i]).node_id == node_id])
    } else {
        None
    }
}

/// Whether a record with the id `id` is in the log.
pub open spec fn holds_id(records: Seq<TranscriptionView>, id: Seq<char>) -> bool {
    exists|i: int| 0 <= i < records.len() && (#[trigger] records[i]).id == id
}

/// Validity of a log: timestamps in order, no id twice.
pub open spec fn log_well_formed(records: Seq<TranscriptionView>) -> bool {
    sorted_by_timestamp(records) && distinct_ids(records)
}

/// The state of a store: the log of records and the cursors.
pub struct StorageView {
    pub transcriptions: Seq<TranscriptionView>,
    pub peers: Seq<PeerView>,
}

impl StorageView {
    /// Validity of a store state.
    pub open spec fn well_formed(self) -> bool {
        log_well_formed(self.transcriptions) && distinct_nodes(self.peers)
    }
}

/// Whether every record of `part` has a timestamp of at most `timestamp`.
pub open spec fn all_not_after(part: Seq<TranscriptionView>, timestamp: int) -> bool {
    forall|i: int| 0 <= i < part.len() ==> (#[trigger] part[i]).timestamp <= timestamp
}

/// Whether every record of `part` has a timestamp greater than `timestamp`.
pub open spec fn all_after(part: Seq<TranscriptionView>, timestamp: int) -> bool {
    forall|i: int| 0 <= i < part.len() ==> (#[trigger] part[i]).timestamp > timestamp
}

/// Whether `at` divides the log into the records that are not newer than
/// `timestamp` and those that are.
pub open spec fn splits_at(records: Seq<TranscriptionView>, timestamp: int, at: int) -> bool {
    &&& 0 <= at <= records.len()
    &&& all_not_after(records.take(at), timestamp)
    &&& all_after(records.skip(at), timestamp)
}

/// Whether every record of `part` has another id than `record` and is not
/// newer than it.
pub open spec fn older_others(part: Seq<TranscriptionView>, record: TranscriptionView) -> bool {
    forall|i: int|
        0 <= i < part.len() ==> (#[trigger] part[i]).id != record.id && part[i].timestamp
            <= record.timestamp
}

/// Whether every record of `part` has another id than `record` and is newer
/// than it.
pub open spec fn newer_others(part: Seq<TranscriptionView>, record: TranscriptionView) -> bool {
    forall|i: int|
        0 <= i < part.len() ==> (#[trigger] part[i]).id != record.id && part[i].timestamp
            > record.timestamp
}

proof fn lemma_other_part(
    front: Seq<TranscriptionView>,
    back: Seq<TranscriptionView>,
    record: TranscriptionView,
)
    requires
        older_others(front, record),
        newer_others(back, record),
    ensures
        (front.push(record) + back).filter(has_other_id(record.id)) == front + back,
{
    let other = has_other_id(record.id);
    let single = seq![record];
    assert(front.push(record) =~= front + single);
    assert forall|i: int| 0 <= i < front.len() implies other(#[trigger] front[i]) by {}
    assert forall|i: int| 0 <= i < back.len() implies other(#[trigger] back[i]) by {}
    assert forall|i: int| 0 <= i < single.len() implies !other(#[trigger] single[i]) by {}
    lemma_filter_keeps_all(front, other);
    lemma_filter_drops_all(single, other);
    lemma_filter_keeps_all(back, other);
    Seq::filter_distributes_over_add(front, single, other);
    Seq::filter_distributes_over_add(front + single, back, other);
    assert(front + Seq::<TranscriptionView>::empty() + back =~= front + back);
}

proof fn lemma_front_kept(
    front: Seq<TranscriptionView>,
    back: Seq<TranscriptionView>,
    record: TranscriptionView,
)
    requires
        older_others(front, record),
        newer_others(back, record),
    ensures
        (front + back).filter(not_after(record.timestamp)) == front,
{
    let old_part = not_after(record.timestamp);
    assert forall|i: int| 0 <= i < front.len() implies old_part(#[trigger] front[i]) by {}
    assert forall|i: int| 0 <= i < back.len() implies !old_part(#[trigger] back[i]) by {}
    lemma_filter_keeps_all(front, old_part);
    lemma_filter_drops_all(back, old_part);
    Seq::filter_distributes_over_add(front, back, old_part);
    assert(front + Seq::<TranscriptionView>::empty() =~= front);
}

proof fn lemma_back_kept(
    front: Seq<TranscriptionView>,
    back: Seq<TranscriptionView>,
    record: TranscriptionView,
)
    requires
        older_others(front, record),
        newer_others(back, record),
    ensures
        (front + back).filter(after(record.timestamp)) == back,
{
    let new_part = after(record.timestamp);
    assert forall|i: int| 0 <= i < front.len() implies !new_part(#[trigger] front[i]) by {}
    assert forall|i: int| 0 <= i < back.len() implies new_part(#[trigger] back[i]) by {}
    lemma_filter_drops_all(front, new_part);
    lemma_filter_keeps_all(back, new_part);
    Seq::filter_distributes_over_add(front, back, new_part);
    assert(Seq::<TranscriptionView>::empty() + back =~= back);
}

/// A log made of records that are not newer than `record`, then `record`,
/// then records that are newer, none of them with the id of `record`, is
/// what an upsert of `record` leaves as it is.
pub proof fn lemma_insert_fixes_arranged(
    front: Seq<TranscriptionView>,
    back: Seq<TranscriptionView>,
    record: TranscriptionView,
)
    requires
        older_others(front, record),
        newer_others(back, record),
    ensures
        log_insert(front.push(record) + back, record) == front.push(record) + back,
{
    lemma_other_part(front, back, record);
    lemma_front_kept(front, back, record);
    lemma_back_kept(front, back, record);
}

pub proof fn lemma_insert_idempotent(records: Seq<TranscriptionView>, record: TranscriptionView)
    ensures
        log_insert(log_insert(records, record), record) == log_insert(records, record),
{
    let other = has_other_id(record.id);
    let rest = records.filter(other);
    let front = rest.filter(not_after(record.timestamp));
    let back = rest.filter(after(record.timestamp));
    lemma_filter_inherits(records, other, |r: TranscriptionView| true);
    assert forall|i: int| 0 <= i < rest.len() implies other(#[trigger] rest[i]) by {}
    lemma_filter_inherits(rest, not_after(record.timestamp), other);
    lemma_filter_inherits(rest, after(record.timestamp), other);
    assert forall|i: int| 0 <= i < front.len() implies (#[trigger] front[i]).id != record.id
        && front[i].timestamp <= record.timestamp by {
        assert(other(front[i]) && not_after(record.timestamp)(front[i]));
    }
    assert forall|i: int| 0 <= i < back.len() implies (#[trigger] back[i]).id != record.id
        && back[i].timestamp > record.timestamp by {
        assert(other(back[i]) && after(record.timestamp)(back[i]));
    }
    lemma_insert_fixes_arranged(front, back, record);
}

proof fn lemma_split_front(records: Seq<TranscriptionView>, timestamp: int, at: int)
    requires
        splits_at(records, timestamp, at),
    ensures
        records.filter(not_after(timestamp)) == records.take(at),
{
    let front = records.take(at);
    let back = records.skip(at);
    let pred = not_after(timestamp);
    assert(records =~= front + back);
    assert forall|i: int| 0 <= i < front.len() implies pred(#[trigger] front[i]) by {}
    assert forall|i: int| 0 <= i < back.len() implies !pred(#[trigger] back[i]) by {}
    lemma_filter_front(front, back, pred);
}

proof fn lemma_split_back(records: Seq<TranscriptionView>, timestamp: int, at: int)
    requires
        splits_at(records, timestamp, at),
    ensures
        records.filter(after(timestamp)) == records.skip(at),
{
    let front = records.take(at);
    let back = records.skip(at);
    let pred = after(timestamp);
    assert(records =~= front + back);
    assert forall|i: int| 0 <= i < front.len() implies !pred(#[trigger] front[i]) by {}
    assert forall|i: int| 0 <= i < back.len() implies pred(#[trigger] back[i]) by {}
    lemma_filter_back(front, back, pred);
}

/// Dividing a log at `at` by timestamp gives the two filtered parts.
pub proof fn lemma_split_filters(records: Seq<TranscriptionView>, timestamp: int, at: int)
    requires
        splits_at(records, timestamp, at),
    ensures
        records.filter(not_after(timestamp)) == records.take(at),
        records.filter(after(timestamp)) == records.skip(at),
{
    lemma_split_front(records, timestamp, at);
    lemma_split_back(records, timestamp, at);
}

/// In a log without repeated ids, filtering an id out removes the one
/// record that has it.
pub proof fn lemma_without_id_removes(records: Seq<TranscriptionView>, at: int)
    requires
        distinct_ids(records),
        0 <= at < records.len(),
    ensures
        records.filter(has_other_id(records[at].id)) == records.remove(at),
{
    let other = has_other_id(records[at].id);
    assert forall|i: int| 0 <= i < records.len() && i != at implies other(
        #[trigger] records[i],
    ) by {
        if i < at {
            assert(records[i].id != records[at].id);
        } else {
            assert(records[at].id != records[i].id);
        }
    }
    crate::filters::lemma_filter_removes_one(records, other, at);
}

/// Filtering out an id that no record has changes nothing.
pub proof fn lemma_without_absent_id(records: Seq<TranscriptionView>, id: Seq<char>)
    requires
        !holds_id(records, id),
    ensures
        records.filter(has_other_id(id)) == records,
{
    let other = has_other_id(id);
    assert forall|i: int| 0 <= i < records.len() implies other(#[trigger] records[i]) by {
        if records[i].id == id {
            assert(holds_id(records, id));
        }
    }
    lemma_filter_keeps_all(records, other);
}

/// An upsert, spelled out: with `rest` the log without the id of `record`,
/// divided at `at` by the timestamp of `record`, the new log is `rest` with
/// `record` put in at `at`.
pub proof fn lemma_insert_at(
    records: Seq<TranscriptionView>,
    rest: Seq<TranscriptionView>,
    at: int,
    record: TranscriptionView,
)
    requires
        rest == records.filter(has_other_id(record.id)),
        splits_at(rest, record.timestamp, at),
    ensures
        log_insert(records, record) == rest.insert(at, record),
{
    lemma_split_filters(rest, record.timestamp, at);
    assert(rest.take(at).push(record) + rest.skip(at) =~= rest.insert(at, record));
}

/// Removing a record from a valid log leaves a valid log.
pub proof fn lemma_remove_keeps_well_formed(records: Seq<TranscriptionView>, at: int)
    requires
        log_well_formed(records),
        0 <= at < records.len(),
    ensures
        log_well_formed(records.remove(at)),
        !holds_id(records.remove(at), records[at].id),
{
    let rest = records.remove(at);
    assert forall|i: int| 0 <= i < rest.len() implies #[trigger] rest[i] == records[if i < at {
        i
    } else {
        i + 1
    }] by {}
    assert forall|i: int, j: int| 0 <= i <= j < rest.len() implies (#[trigger] rest[i]).timestamp
        <= (#[trigger] rest[j]).timestamp by {
        let a = if i < at { i } else { i + 1 };
        let b = if j < at { j } else { j + 1 };
        assert(records[a].timestamp <= records[b].timestamp);
    }
    assert forall|i: int, j: int| 0 <= i < j < rest.len() implies (#[trigger] rest[i]).id != (
    #[trigger] rest[j]).id by {
        let a = if i < at { i } else { i + 1 };
        let b = if j < at { j } else { j + 1 };
        assert(records[a].id != records[b].id);
    }
    assert forall|i: int| 0 <= i < rest.len() implies (#[trigger] rest[i]).id != records[at].id by {
        let a = if i < at { i } else { i + 1 };
        if a < at {
            assert(records[a].id != records[at].id);
        } else {
            assert(records[at].id != records[a].id);
        }
    }
}

/// Putting a record with a fresh id in at the place that its timestamp
/// gives leaves a valid log.
pub proof fn lemma_insert_at_keeps_well_formed(
    rest: Seq<TranscriptionView>,
    at: int,
    record: TranscriptionView,
)
    requires
        log_well_formed(rest),
        !holds_id(rest, record.id),
        splits_at(rest, record.timestamp, at),
    ensures
        log_well_formed(rest.insert(at, record)),
{
    let grown = rest.insert(at, record);
    rest.insert_ensures(at, record);
    assert forall|k: int| 0 <= k < rest.len() implies (#[trigger] rest[k]).id != record.id by {
        if rest[k].id == record.id {
            assert(holds_id(rest, record.id));
        }
    }
    assert forall|k: int| 0 <= k < at implies (#[trigger] rest[k]).timestamp <= record.timestamp by {
        assert(rest.take(at)[k] == rest[k]);
    }
    assert forall|k: int| at <= k < rest.len() implies (#[trigger] rest[k]).timestamp
        > record.timestamp by {
        assert(rest.skip(at)[k - at] == rest[k]);
    }
    assert forall|i: int, j: int| 0 <= i <= j < grown.len() implies (
    #[trigger] grown[i]).timestamp <= (#[trigger] grown[j]).timestamp by {
        if i < at && j > at {
            assert(grown[i] == rest[i] && grown[j] == rest[j - 1]);
        } else if i < at && j < at {
            assert(grown[i] == rest[i] && grown[j] == rest[j]);
        } else if i > at && j > at {
            assert(grown[i] == rest[i - 1] && grown[j] == rest[j - 1]);
        } else if i == at && j > at {
            assert(grown[j] == rest[j - 1]);
        } else if i < at && j == at {
            assert(grown[i] == rest[i]);
        }
    }
    assert forall|i: int, j: int| 0 <= i < j < grown.len() implies (#[trigger] grown[i]).id != (
    #[trigger] grown[j]).id by {
        if i < at && j > at {
            assert(grown[i] == rest[i] && grown[j] == rest[j - 1]);
        } else if i < at && j < at {
            assert(grown[i] == rest[i] && grown[j] == rest[j]);
        } else if i > at && j > at {
            assert(grown[i] == rest[i - 1] && grown[j] == rest[j - 1]);
        } else if i == at && j > at {
            assert(grown[j] == rest[j - 1]);
        } else if i < at && j == at {
            assert(grown[i] == rest[i]);
        }
    }
}

/// An upsert of a cursor leaves no node with two cursors.
pub proof fn lemma_upsert_keeps_distinct(peers: Seq<PeerView>, peer: PeerView)
    requires
        distinct_nodes(peers),
    ensures
        distinct_nodes(peers_upsert(peers, peer)),
    decreases peers.len(),
{
    reveal(Seq::filter);
    let other = is_other_node(peer.node_id);
    lemma_filter_keeps_distinct(peers, other);
    lemma_filter_inherits(peers, other, |p: PeerView| true);
    let rest = peers.filter(other);
    let grown = rest.push(peer);
    assert forall|i: int, j: int| 0 <= i < j < grown.len() implies (#[trigger] grown[i]).node_id
        != (#[trigger] grown[j]).node_id by {
        if j < rest.len() {
            assert(grown[i] == rest[i] && grown[j] == rest[j]);
        } else {
            assert(other(rest[i]));
        }
    }
}

/// Filtering leaves no node with two cursors, and keeps only cursors that
/// were there.
pub proof fn lemma_filter_keeps_distinct(peers: Seq<PeerView>, pred: spec_fn(PeerView) -> bool)
    requires
        distinct_nodes(peers),
    ensures
        distinct_nodes(peers.filter(pred)),
        forall|i: int|
            0 <= i < peers.filter(pred).len() ==> holds_peer(
                peers,
                (#[trigger] peers.filter(pred)[i]).node_id,
            ),
    decreases peers.len(),
{
    reveal(Seq::filter);
    if peers.len() > 0 {
        let shorter = peers.drop_last();
        assert forall|i: int, j: int| 0 <= i < j < shorter.len() implies (
        #[trigger] shorter[i]).node_id != (#[trigger] shorter[j]).node_id by {
            assert(shorter[i] == peers[i] && shorter[j] == peers[j]);
        }
        lemma_filter_keeps_distinct(shorter, pred);
        let sub = shorter.filter(pred);
        let all = peers.filter(pred);
        assert forall|i: int| 0 <= i < all.len() implies holds_peer(
            peers,
            (#[trigger] all[i]).node_id,
        ) by {
            if i < sub.len() {
                assert(all[i] == sub[i]);
                assert(holds_peer(shorter, sub[i].node_id));
                let k = choose|k: int|
                    0 <= k < shorter.len() && (#[trigger] shorter[k]).node_id == sub[i].node_id;
                assert(peers[k].node_id == sub[i].node_id);
            } else {
                assert(all[i] == peers[peers.len() - 1]);
            }
        }
        assert forall|i: int, j: int| 0 <= i < j < all.len() implies (#[trigger] all[i]).node_id
            != (#[trigger] all[j]).node_id by {
            if j < sub.len() {
                assert(all[i] == sub[i] && all[j] == sub[j]);
            } else {
                assert(all[j] == peers[peers.len() - 1]);
                assert(all[i] == sub[i]);
                assert(holds_peer(shorter, sub[i].node_id));
                let k = choose|k: int|
                    0 <= k < shorter.len() && (#[trigger] shorter[k]).node_id == sub[i].node_id;
                assert(peers[k].node_id != peers[peers.len() - 1].node_id);
            }
        }
    }
}

/// A sorted log can be divided by any timestamp.
pub proof fn lemma_split_exists(records: Seq<TranscriptionView>, timestamp: int) -> (at: int)
    requires
        sorted_by_timestamp(records),
    ensures
        splits_at(records, timestamp, at),
    decreases records.len(),
{
    if records.len() == 0 {
        0
    } else if records.last().timestamp <= timestamp {
        let at = records.len() as int;
        assert forall|i: int| 0 <= i < records.take(at).len() implies (#[trigger] records.take(
            at,
        )[i]).timestamp <= timestamp by {
            assert(records[i].timestamp <= records[records.len() - 1].timestamp);
        }
        at
    } else {
        let shorter = records.drop_last();
        assert forall|i: int, j: int| 0 <= i <= j < shorter.len() implies (
        #[trigger] shorter[i]).timestamp <= (#[trigger] shorter[j]).timestamp by {
            assert(shorter[i] == records[i] && shorter[j] == records[j]);
        }
        let at = lemma_split_exists(shorter, timestamp);
        assert(records.take(at) =~= shorter.take(at));
        assert forall|i: int| 0 <= i < records.skip(at).len() implies (#[trigger] records.skip(
            at,
        )[i]).timestamp > timestamp by {
            if i + at < shorter.len() {
                assert(shorter.skip(at)[i] == records.skip(at)[i]);
            }
        }
        at
    }
}

/// An upsert into a valid log leaves a valid log.
pub proof fn lemma_insert_keeps_well_formed(
    records: Seq<TranscriptionView>,
    record: TranscriptionView,
)
    requires
        log_well_formed(records),
    ensures
        log_well_formed(log_insert(records, record)),
{
    let rest = records.filter(has_other_id(record.id));
    if holds_id(records, record.id) {
        let i = choose|i: int| 0 <= i < records.len() && (#[trigger] records[i]).id == record.id;
        lemma_without_id_removes(records, i);
        lemma_remove_keeps_well_formed(records, i);
    } else {
        lemma_without_absent_id(records, record.id);
    }
    let at = lemma_split_exists(rest, record.timestamp);
    lemma_insert_at(records, rest, at, record);
    lemma_insert_at_keeps_well_formed(rest, at, record);
}

/// What an upsert leaves in the log: the record entered, and every record
/// that was there under another id. Nothing else is in the log afterwards.
pub proof fn lemma_insert_membership(records: Seq<TranscriptionView>, record: TranscriptionView)
    ensures
        log_insert(records, record).contains(record),
        forall|i: int|
            0 <= i < records.len() && (#[trigger] records[i]).id != record.id ==> log_insert(
                records,
                record,
            ).contains(records[i]),
        forall|k: int|
            0 <= k < log_insert(records, record).len() ==> (#[trigger] log_insert(
                records,
                record,
            )[k]) == record || (records.contains(log_insert(records, record)[k]) && log_insert(
                records,
                record,
            )[k].id != record.id),
{
    let other = has_other_id(record.id);
    let rest = records.filter(other);
    let front = rest.filter(not_after(record.timestamp));
    let back = rest.filter(after(record.timestamp));
    let all = log_insert(records, record);
    assert(all == front.push(record) + back);
    assert(all[front.len() as int] == record);
    assert forall|i: int| 0 <= i < records.len() && (#[trigger] records[i]).id
        != record.id implies all.contains(records[i]) by {
        lemma_kept_by_insert(records, record, i);
    }
    assert forall|k: int| 0 <= k < all.len() implies (#[trigger] all[k]) == record || (
    records.contains(all[k]) && all[k].id != record.id) by {
        lemma_insert_element_origin(records, record, k);
    }
}

proof fn lemma_kept_by_insert(records: Seq<TranscriptionView>, record: TranscriptionView, i: int)
    requires
        0 <= i < records.len(),
        records[i].id != record.id,
    ensures
        log_insert(records, record).contains(records[i]),
{
    let other = has_other_id(record.id);
    let rest = records.filter(other);
    let front = rest.filter(not_after(record.timestamp));
    let back = rest.filter(after(record.timestamp));
    let all = front.push(record) + back;
    assert(other(records[i]));
    records.lemma_filter_contains(other, i);
    let k = choose|k: int| 0 <= k < rest.len() && rest[k] == records[i];
    if rest[k].timestamp <= record.timestamp {
        assert(not_after(record.timestamp)(rest[k]));
        rest.lemma_filter_contains(not_after(record.timestamp), k);
        let m = choose|m: int| 0 <= m < front.len() && front[m] == rest[k];
        assert(all[m] == records[i]);
    } else {
        assert(after(record.timestamp)(rest[k]));
        rest.lemma_filter_contains(after(record.timestamp), k);
        let m = choose|m: int| 0 <= m < back.len() && back[m] == rest[k];
        assert(all[front.len() + 1 + m] == records[i]);
    }
}

proof fn lemma_insert_element_origin(
    records: Seq<TranscriptionView>,
    record: TranscriptionView,
    k: int,
)
    requires
        0 <= k < log_insert(records, record).len(),
    ensures
        log_insert(records, record)[k] == record || (records.contains(
            log_insert(records, record)[k],
        ) && log_insert(records, record)[k].id != record.id),
{
    let other = has_other_id(record.id);
    let rest = records.filter(other);
    let front = rest.filter(not_after(record.timestamp));
    let back = rest.filter(after(record.timestamp));
    let all = front.push(record) + back;
    let from_log = |r: TranscriptionView| records.contains(r);
    assert forall|i: int| 0 <= i < records.len() implies from_log(#[trigger] records[i]) by {}
    lemma_filter_inherits(records, other, from_log);
    let kept = |r: TranscriptionView| records.contains(r) && r.id != record.id;
    assert forall|i: int| 0 <= i < rest.len() implies kept(#[trigger] rest[i]) by {
        assert(from_log(rest[i]) && other(rest[i]));
    }
    lemma_filter_inherits(rest, not_after(record.timestamp), kept);
    lemma_filter_inherits(rest, after(record.timestamp), kept);
    if k < front.len() {
        assert(all[k] == front[k]);
        assert(kept(front[k]));
    } else if k > front.len() {
        assert(all[k] == back[k - front.len() - 1]);
        assert(kept(back[k - front.len() - 1]));
    }
}

/// What a query by timestamp answers: exactly the records that are newer
/// than `since`, oldest first.
pub proof fn lemma_since_meaning(records: Seq<TranscriptionView>, since: int)
    requires
        log_well_formed(records),
    ensures
        log_well_formed(log_since(records, since)),
        forall|k: int|
            0 <= k < log_since(records, since).len() ==> (#[trigger] log_since(
                records,
                since,
            )[k]).timestamp > since && records.contains(log_since(records, since)[k]),
        forall|i: int|
            0 <= i < records.len() && (#[trigger] records[i]).timestamp > since ==> log_since(
                records,
                since,
            ).contains(records[i]),
{
    let at = lemma_split_exists(records, since);
    lemma_split_filters(records, since, at);
    let found = log_since(records, since);
    assert(found == records.skip(at));
    assert forall|k: int| 0 <= k < found.len() implies (#[trigger] found[k]).timestamp > since
        && records.contains(found[k]) by {
        assert(found[k] == records[k + at]);
    }
    assert forall|i: int| 0 <= i < records.len() && (#[trigger] records[i]).timestamp
        > since implies found.contains(records[i]) by {
        if i < at {
            assert(records.take(at)[i] == records[i]);
        } else {
            assert(found[i - at] == records[i]);
        }
    }
    assert forall|i: int, j: int| 0 <= i <= j < found.len() implies (
    #[trigger] found[i]).timestamp <= (#[trigger] found[j]).timestamp by {
        assert(found[i] == records[i + at] && found[j] == records[j + at]);
    }
    assert forall|i: int, j: int| 0 <= i < j < found.len() implies (#[trigger] found[i]).id != (
    #[trigger] found[j]).id by {
        assert(found[i] == records[i + at] && found[j] == records[j + at]);
    }
}

/// What a query for the recent records answers in a valid log: timestamps
/// that never increase along the answer, and no record left out that is
/// newer than one in the answer.
pub proof fn lemma_recent_meaning(records: Seq<TranscriptionView>, limit: nat)
    requires
        log_well_formed(records),
    ensures
        log_recent(records, limit).len() == if limit <= records.len() {
            limit
        } else {
            records.len()
        },
        forall|i: int, j: int|
            0 <= i <= j < log_recent(records, limit).len() ==> (#[trigger] log_recent(
                records,
                limit,
            )[i]).timestamp >= (#[trigger] log_recent(records, limit)[j]).timestamp,
        forall|i: int, k: int|
            0 <= i < records.len() - log_recent(records, limit).len() && 0 <= k < log_recent(
                records,
                limit,
            ).len() ==> (#[trigger] records[i]).timestamp <= (#[trigger] log_recent(
                records,
                limit,
            )[k]).timestamp,
{
    let found = log_recent(records, limit);
    assert forall|i: int, j: int| 0 <= i <= j < found.len() implies (
    #[trigger] found[i]).timestamp >= (#[trigger] found[j]).timestamp by {
        assert(records[records.len() - 1 - j].timestamp <= records[records.len() - 1
            - i].timestamp);
    }
    assert forall|i: int, k: int|
        0 <= i < records.len() - found.len() && 0 <= k < found.len() implies (
    #[trigger] records[i]).timestamp <= (#[trigger] found[k]).timestamp by {
        assert(records[i].timestamp <= records[records.len() - 1 - k].timestamp);
    }
}

/// After an upsert of a cursor, a lookup of its node finds it, and a lookup
/// of any other node finds what it found before.
pub proof fn lemma_upsert_lookup(peers: Seq<PeerView>, peer: PeerView, node_id: Seq<char>)
    requires
        distinct_nodes(peers),
    ensures
        node_id == peer.node_id ==> peer_lookup(peers_upsert(peers, peer), node_id) == Some(peer),
        node_id != peer.node_id ==> peer_lookup(peers_upsert(peers, peer), node_id) == peer_lookup(
            peers,
            node_id,
        ),
{
    let other = is_other_node(peer.node_id);
    let rest = peers.filter(other);
    let grown = peers_upsert(peers, peer);
    lemma_upsert_keeps_distinct(peers, peer);
    lemma_filter_inherits(peers, other, |p: PeerView| true);
    if node_id == peer.node_id {
        assert(grown[rest.len() as int] == peer);
        assert(holds_peer(grown, node_id));
        let k = choose|k: int| 0 <= k < grown.len() && (#[trigger] grown[k]).node_id == node_id;
        if k < rest.len() {
            assert(grown[k] == rest[k]);
            assert(other(rest[k]));
        }
    } else {
        if holds_peer(peers, node_id) {
            let i = choose|i: int| 0 <= i < peers.len() && (#[trigger] peers[i]).node_id
                == node_id;
            assert(other(peers[i]));
            peers.lemma_filter_contains(other, i);
            let m = choose|m: int| 0 <= m < rest.len() && rest[m] == peers[i];
            assert(grown[m] == peers[i]);
            assert(holds_peer(grown, node_id));
            let k = choose|k: int| 0 <= k < grown.len() && (#[trigger] grown[k]).node_id
                == node_id;
            if k < m {
                assert(grown[k].node_id != grown[m].node_id);
            } else if m < k {
                assert(grown[m].node_id != grown[k].node_id);
            }
        } else {
            if holds_peer(grown, node_id) {
                let k = choose|k: int| 0 <= k < grown.len() && (#[trigger] grown[k]).node_id
                    == node_id;
                assert(k < rest.len());
                assert(grown[k] == rest[k]);
                lemma_filter_keeps_distinct(peers, other);
                assert(holds_peer(peers, rest[k].node_id));
            }
        }
    }
}

} // verus!
