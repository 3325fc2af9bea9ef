//! The store itself: the log of transcriptions, kept in timestamp order,
//! and the replication cursors.
//!
//! The store lives in memory. Making it durable is the caller's business:
//! whatever is written here can be written to disk as well, and read back
//! by entering it again.

use crate::storage::model::{
    has_other_id, holds_id, holds_peer, is_other_node, is_synced, lemma_insert_at,
    lemma_insert_at_keeps_well_formed, lemma_remove_keeps_well_formed, lemma_split_filters,
    lemma_without_absent_id, lemma_without_id_removes, log_insert, log_mark_synced, log_recent,
    log_since, marked, peer_lookup, peers_upsert, sorted_by_timestamp, splits_at, StorageView,
};
use crate::storage::{Peer, PeerView, Transcription, TranscriptionView};
use crate::text::text_eq;
use vstd::prelude::*;

verus! {

/// Views of a list of records, in the same order.
pub open spec fn record_views(records: Seq<Transcription>) -> Seq<TranscriptionView> {
    Seq::new(records.len(), |i: int| records[i]@)
}

/// Views of a list of cursors, in the same order.
pub open spec fn peer_views(peers: Seq<Peer>) -> Seq<PeerView> {
    Seq::new(peers.len(), |i: int| peers[i]@)
}

/// Log of transcriptions and replication cursors of one node.
pub struct Storage {
    transcriptions: Vec<Transcription>,
    peers: Vec<Peer>,
}

impl View for Storage {
    type V = StorageView;

    closed spec fn view(&self) -> StorageView {
        StorageView {
            transcriptions: record_views(self.transcriptions@),
            peers: peer_views(self.peers@),
        }
    }
}

/// Index of the record with the id `id`.
fn find_record(records: &Vec<Transcription>, id: &str) -> (at: Option<usize>)
    ensures
        match at {
            Some(i) => i < records@.len() && records@[i as int]@.id == id@,
            None => !holds_id(record_views(records@), id@),
        },
{
    let mut i: usize = 0;
    while i < records.len()
        invariant
            i <= records@.len(),
            forall|j: int| 0 <= j < i ==> (#[trigger] records@[j])@.id != id@,
        decreases records@.len() - i,
    {
        if text_eq(records[i].id.as_str(), id) {
            return Some(i);
        }
        i += 1;
    }
    assert forall|j: int| 0 <= j < record_views(records@).len() implies (#[trigger] record_views(
        records@,
    )[j]).id != id@ by {
        assert(records@[j]@.id != id@);
    }
    None
}

/// Index of the cursor of the node `node_id`.
fn find_peer(peers: &Vec<Peer>, node_id: &str) -> (at: Option<usize>)
    ensures
        match at {
            Some(i) => i < peers@.len() && peers@[i as int]@.node_id == node_id@,
            None => !holds_peer(peer_views(peers@), node_id@),
        },
{
    let mut i: usize = 0;
    while i < peers.len()
        invariant
            i <= peers@.len(),
            forall|j: int| 0 <= j < i ==> (#[trigger] peers@[j])@.node_id != node_id@,
        decreases peers@.len() - i,
    {
        if text_eq(peers[i].node_id.as_str(), node_id) {
            return Some(i);
        }
        i += 1;
    }
    assert forall|j: int| 0 <= j < peer_views(peers@).len() implies (#[trigger] peer_views(
        peers@,
    )[j]).node_id != node_id@ by {
        assert(peers@[j]@.node_id != node_id@);
    }
    None
}

/// The index that divides a sorted log into the records that are not newer
/// than `timestamp` and those that are.
fn split_point(records: &Vec<Transcription>, timestamp: i64) -> (at: usize)
    requires
        sorted_by_timestamp(record_views(records@)),
    ensures
        splits_at(record_views(records@), timestamp as int, at as int),
{
    let ghost views = record_views(records@);
    let mut at: usize = records.len();
    while at > 0 && records[at - 1].timestamp > timestamp
        invariant
            at <= records@.len(),
            views == record_views(records@),
            forall|j: int| at <= j < records@.len() ==> (#[trigger] views[j]).timestamp > timestamp,
        decreases at,
    {
        at -= 1;
    }
    proof {
        assert forall|j: int| 0 <= j < views.take(at as int).len() implies (#[trigger] views.take(
            at as int,
        )[j]).timestamp <= timestamp by {
            assert(views[j].timestamp <= views[at - 1].timestamp);
        }
        assert forall|j: int| 0 <= j < views.skip(at as int).len() implies (#[trigger] views.skip(
            at as int,
        )[j]).timestamp > timestamp by {
            assert(views.skip(at as int)[j] == views[j + at]);
        }
    }
    at
}

impl Storage {
    #[verifier::type_invariant]
    spec fn valid(&self) -> bool {
        self@.well_formed()
    }

    /// An empty store.
    pub fn new() -> (store: Self)
        ensures
            store@.transcriptions == Seq::<TranscriptionView>::empty(),
            store@.peers == Seq::<PeerView>::empty(),
            store@.well_formed(),
    {
        let store = Storage { transcriptions: Vec::new(), peers: Vec::new() };
        assert(store@.transcriptions =~= Seq::<TranscriptionView>::empty());
        assert(store@.peers =~= Seq::<PeerView>::empty());
        store
    }

    /// Enters a record, in place of any record with the same id.
    pub fn insert_transcription(&mut self, transcription: &Transcription)
        ensures
            final(self)@.transcriptions == log_insert(old(self)@.transcriptions, transcription@),
            final(self)@.peers == old(self)@.peers,
            final(self)@.well_formed(),
    {
        proof {
            use_type_invariant(&*self);
        }
        let record = transcription.clone();
        let ghost before = record_views(self.transcriptions@);
        let mut records: Vec<Transcription> = Vec::new();
        std::mem::swap(&mut self.transcriptions, &mut records);
        match find_record(&records, record.id.as_str()) {
            Some(i) => {
                proof {
                    lemma_without_id_removes(before, i as int);
                    lemma_remove_keeps_well_formed(before, i as int);
                    assert(record_views(records@.remove(i as int)) =~= before.remove(i as int));
                }
                let _ = records.remove(i);
            },
            None => {
                proof {
                    lemma_without_absent_id(before, record@.id);
                }
            },
        }
        let ghost rest = record_views(records@);
        assert(rest == before.filter(has_other_id(record@.id)));
        let at = split_point(&records, record.timestamp);
        proof {
            lemma_insert_at(before, rest, at as int, record@);
            lemma_insert_at_keeps_well_formed(rest, at as int, record@);
            assert(record_views(records@.insert(at as int, record)) =~= rest.insert(
                at as int,
                record@,
            ));
        }
        records.insert(at, record);
        self.transcriptions = records;
    }

    /// The records with a timestamp strictly greater than `since`, oldest
    /// first.
    pub fn get_transcriptions_since(&self, since: i64) -> (found: Vec<Transcription>)
        ensures
            record_views(found@) == log_since(self@.transcriptions, since as int),
            self@.well_formed(),
    {
        proof {
            use_type_invariant(self);
        }
        let at = split_point(&self.transcriptions, since);
        let ghost views = record_views(self.transcriptions@);
        proof {
            lemma_split_filters(views, since as int, at as int);
        }
        let mut found: Vec<Transcription> = Vec::new();
        let mut i: usize = at;
        while i < self.transcriptions.len()
            invariant
                at <= i <= self.transcriptions@.len(),
                views == record_views(self.transcriptions@),
                found@.len() == i - at,
                forall|j: int| 0 <= j < found@.len() ==> (#[trigger] found@[j])@ == views[at + j],
            decreases self.transcriptions@.len() - i,
        {
            found.push(self.transcriptions[i].clone());
            i += 1;
        }
        assert(record_views(found@) =~= views.skip(at as int));
        found
    }

    /// The `limit` records with the greatest timestamps, newest first.
    pub fn get_recent_transcriptions(&self, limit: usize) -> (found: Vec<Transcription>)
        ensures
            record_views(found@) == log_recent(self@.transcriptions, limit as nat),
            self@.well_formed(),
    {
        proof {
            use_type_invariant(self);
        }
        let total: usize = self.transcriptions.len();
        let count: usize = if limit <= total {
            limit
        } else {
            total
        };
        let ghost views = record_views(self.transcriptions@);
        let mut found: Vec<Transcription> = Vec::new();
        let mut i: usize = 0;
        while i < count
            invariant
                i <= count <= total,
                total == self.transcriptions@.len(),
                views == record_views(self.transcriptions@),
                found@.len() == i,
                forall|j: int|
                    0 <= j < found@.len() ==> (#[trigger] found@[j])@ == views[total - 1 - j],
            decreases count - i,
        {
            found.push(self.transcriptions[total - 1 - i].clone());
            i += 1;
        }
        assert(record_views(found@) =~= log_recent(views, limit as nat));
        found
    }

    /// Number of records, and number of those that are marked as synced.
    pub fn count_transcriptions(&self) -> (counts: (usize, usize))
        ensures
            counts.0 == self@.transcriptions.len(),
            counts.1 == self@.transcriptions.filter(is_synced()).len(),
            counts.1 <= counts.0,
    {
        let ghost views = record_views(self.transcriptions@);
        let mut synced: usize = 0;
        let mut i: usize = 0;
        assert(views.take(0) =~= Seq::<TranscriptionView>::empty());
        proof {
            crate::filters::lemma_filter_drops_all(views.take(0), is_synced());
        }
        while i < self.transcriptions.len()
            invariant
                i <= self.transcriptions@.len(),
                views == record_views(self.transcriptions@),
                synced == views.take(i as int).filter(is_synced()).len(),
                synced <= i,
            decreases self.transcriptions@.len() - i,
        {
            proof {
                crate::filters::lemma_filter_len_push(
                    views.take(i as int),
                    is_synced(),
                    views[i as int],
                );
                assert(views.take(i as int).push(views[i as int]) =~= views.take(i + 1));
            }
            if self.transcriptions[i].synced {
                synced += 1;
            }
            i += 1;
        }
        assert(views.take(views.len() as int) =~= views);
        (self.transcriptions.len(), synced)
    }

    /// Marks the record with the id `id` as synced. Nothing happens if there
    /// is no such record.
    pub fn mark_synced(&mut self, id: &str)
        ensures
            final(self)@.transcriptions == log_mark_synced(old(self)@.transcriptions, id@),
            final(self)@.peers == old(self)@.peers,
            final(self)@.well_formed(),
    {
        proof {
            use_type_invariant(&*self);
        }
        let ghost before = record_views(self.transcriptions@);
        match find_record(&self.transcriptions, id) {
            Some(i) => {
                let mut record = self.transcriptions[i].clone();
                record.synced = true;
                proof {
                    let after_views = record_views(self.transcriptions@.update(i as int, record));
                    assert forall|k: int| 0 <= k < before.len() implies #[trigger] after_views[k]
                        == marked(before[k], id@) by {
                        if k != i {
                            if k < i {
                                assert(before[k].id != before[i as int].id);
                            } else {
                                assert(before[i as int].id != before[k].id);
                            }
                        }
                    }
                    assert(after_views =~= log_mark_synced(before, id@));
                    assert forall|a: int, b: int| 0 <= a <= b < after_views.len() implies (
                    #[trigger] after_views[a]).timestamp <= (#[trigger] after_views[b]).timestamp by {
                        assert(before[a].timestamp <= before[b].timestamp);
                    }
                    assert forall|a: int, b: int| 0 <= a < b < after_views.len() implies (
                    #[trigger] after_views[a]).id != (#[trigger] after_views[b]).id by {
                        assert(before[a].id != before[b].id);
                    }
                }
                let mut records: Vec<Transcription> = Vec::new();
                std::mem::swap(&mut self.transcriptions, &mut records);
                records.set(i, record);
                self.transcriptions = records;
            },
            None => {
                proof {
                    assert forall|k: int| 0 <= k < before.len() implies marked(
                        #[trigger] before[k],
                        id@,
                    ) == before[k] by {
                        if before[k].id == id@ {
                            assert(holds_id(before, id@));
                        }
                    }
                    assert(before =~= log_mark_synced(before, id@));
                }
            },
        }
    }

    /// Enters a cursor, in place of any cursor of the same node.
    pub fn upsert_peer(&mut self, peer: &Peer)
        ensures
            final(self)@.peers == peers_upsert(old(self)@.peers, peer@),
            final(self)@.transcriptions == old(self)@.transcriptions,
            final(self)@.well_formed(),
    {
        proof {
            use_type_invariant(&*self);
        }
        let entry = peer.clone();
        let ghost before = peer_views(self.peers@);
        let mut peers: Vec<Peer> = Vec::new();
        std::mem::swap(&mut self.peers, &mut peers);
        let other = Ghost(is_other_node(entry@.node_id));
        match find_peer(&peers, entry.node_id.as_str()) {
            Some(i) => {
                proof {
                    assert forall|k: int| 0 <= k < before.len() && k != i implies other@(
                        #[trigger] before[k],
                    ) by {
                        if k < i {
                            assert(before[k].node_id != before[i as int].node_id);
                        } else {
                            assert(before[i as int].node_id != before[k].node_id);
                        }
                    }
                    crate::filters::lemma_filter_removes_one(before, other@, i as int);
                    assert(peer_views(peers@.remove(i as int)) =~= before.remove(i as int));
                }
                let _ = peers.remove(i);
            },
            None => {
                proof {
                    assert forall|k: int| 0 <= k < before.len() implies other@(
                        #[trigger] before[k],
                    ) by {
                        if before[k].node_id == entry@.node_id {
                            assert(holds_peer(before, entry@.node_id));
                        }
                    }
                    crate::filters::lemma_filter_keeps_all(before, other@);
                }
            },
        }
        let ghost rest = peer_views(peers@);
        assert(rest == before.filter(is_other_node(entry@.node_id)));
        proof {
            crate::filters::lemma_filter_inherits(before, other@, |p: PeerView| true);
            assert(peer_views(peers@.push(entry)) =~= rest.push(entry@));
            crate::storage::model::lemma_upsert_keeps_distinct(before, entry@);
        }
        peers.push(entry);
        self.peers = peers;
    }

    /// All cursors.
    pub fn get_peers(&self) -> (peers: Vec<Peer>)
        ensures
            peer_views(peers@) == self@.peers,
            self@.well_formed(),
    {
        proof {
            use_type_invariant(self);
        }
        let mut peers: Vec<Peer> = Vec::new();
        let mut i: usize = 0;
        while i < self.peers.len()
            invariant
                i <= self.peers@.len(),
                peers@.len() == i,
                forall|j: int| 0 <= j < i ==> (#[trigger] peers@[j])@ == self.peers@[j]@,
            decreases self.peers@.len() - i,
        {
            peers.push(self.peers[i].clone());
            i += 1;
        }
        assert(peer_views(peers@) =~= peer_views(self.peers@));
        peers
    }

    /// The cursor kept for the node `node_id`, if there is one.
    pub fn get_peer(&self, node_id: &str) -> (peer: Option<Peer>)
        ensures
            match peer {
                Some(found) => peer_lookup(self@.peers, node_id@) == Some(found@),
                None => peer_lookup(self@.peers, node_id@) is None,
            },
            self@.well_formed(),
    {
        proof {
            use_type_invariant(self);
        }
        let ghost views = peer_views(self.peers@);
        match find_peer(&self.peers, node_id) {
            Some(i) => {
                proof {
                    assert(views[i as int].node_id == node_id@);
                    assert(holds_peer(views, node_id@));
                    let chosen = choose|k: int|
                        0 <= k < views.len() && (#[trigger] views[k]).node_id == node_id@;
                    if chosen < i {
                        assert(views[chosen].node_id != views[i as int].node_id);
                    } else if i < chosen {
                        assert(views[i as int].node_id != views[chosen].node_id);
                    }
                }
                Some(self.peers[i].clone())
            },
            None => None,
        }
    }
}

} // verus!
