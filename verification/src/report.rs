//! What the command line shows: the status of a node and its recent log.
//!
//! The numbers and the lines are made here; printing them is the caller's
//! business.

use crate::storage::model::is_synced;
use crate::storage::store::{peer_views, record_views, Storage};
use crate::storage::{option_string_view, Transcription, TranscriptionView};
use std::fmt::Write;
use vstd::prelude::*;
use vstd::string::StringExecFns;

verus! {

/// The pattern in which the log shows the time of a record.
pub const LOG_TIME_PATTERN: &'static str = "%Y-%m-%d %H:%M:%S";

/// The text that `chrono` renders for the UTC time `timestamp` seconds after
/// the epoch under the `strftime` pattern `pattern`, or `None` where the
/// time is out of `chrono`'s range or the pattern cannot be rendered. Both
/// depend on the two arguments alone: the time is taken as UTC and the
/// rendering uses no locale.
pub uninterp spec fn utc_text(timestamp: int, pattern: Seq<char>) -> Option<Seq<char>>;

/// `chrono::DateTime::from_timestamp` with zero nanoseconds, rendered by
/// `DateTime::format` with `pattern`. The text is the one named by
/// [`utc_text`]; nothing else is claimed about it.
#[verifier::external_body]
fn format_utc(timestamp: i64, pattern: &str) -> (text: Option<String>)
    ensures
        option_string_view(text) == utc_text(timestamp as int, pattern@),
{
    let time = chrono::DateTime::from_timestamp(timestamp, 0)?;
    let mut text = String::new();
    match write!(text, "{}", time.format(pattern)) {
        Ok(()) => Some(text),
        Err(_) => None,
    }
}

/// A log line could not be made.
#[derive(Debug, Clone, Copy, PartialEq, Eq, Structural)]
pub enum ReportError {
    /// The timestamp of a record cannot be shown as a date and time.
    TimestampOutOfRange,
}

/// The line that shows a record whose time reads `time`:
/// `[time] [source node] text`.
pub open spec fn spec_log_line(time: Seq<char>, record: TranscriptionView) -> Seq<char> {
    "["@ + time + "] ["@ + record.source_node + "] "@ + record.text
}

/// The line that shows `record`, given the text of its time.
pub fn compose_log_line(time: &str, record: &Transcription) -> (line: String)
    ensures
        line@ == spec_log_line(time@, record@),
{
    let mut line = "[".to_owned();
    line.append(time);
    line.append("] [");
    line.append(record.source_node.as_str());
    line.append("] ");
    line.append(record.text.as_str());
    line
}

/// The line that shows one record, or `None` if its timestamp cannot be
/// shown.
pub fn log_line(record: &Transcription) -> (line: Option<String>)
    ensures
        match utc_text(record@.timestamp, LOG_TIME_PATTERN@) {
            Some(time) => line is Some && line->Some_0@ == spec_log_line(time, record@),
            None => line is None,
        },
{
    match format_utc(record.timestamp, LOG_TIME_PATTERN) {
        Some(time) => Some(compose_log_line(time.as_str(), record)),
        None => None,
    }
}

/// Whether every line of `lines` is there.
pub open spec fn all_present(lines: Seq<Option<String>>) -> bool {
    forall|i: int| 0 <= i < lines.len() ==> (#[trigger] lines[i]) is Some
}

/// Turns the lines of a list that starts with the newest record into the
/// log as it is shown: the same lines, the oldest first. A line that is
/// missing, because the time of its record cannot be shown, fails the log.
pub fn oldest_first(lines: Vec<Option<String>>) -> (log: Result<Vec<String>, ReportError>)
    ensures
        match log {
            Ok(shown) => all_present(lines@) && shown@.len() == lines@.len() && forall|i: int|
                0 <= i < shown@.len() ==> lines@[lines@.len() - 1 - i] == Some(
                    #[trigger] shown@[i],
                ),
            Err(e) => !all_present(lines@) && e == ReportError::TimestampOutOfRange,
        },
{
    let ghost all = lines@;
    let mut rest = lines;
    let mut shown: Vec<String> = Vec::new();
    while rest.len() > 0
        invariant
            all == lines@,
            rest@.len() <= all.len(),
            rest@ == all.take(rest@.len() as int),
            shown@.len() == all.len() - rest@.len(),
            forall|j: int|
                0 <= j < shown@.len() ==> all[all.len() - 1 - j] == Some(#[trigger] shown@[j]),
        decreases rest@.len(),
    {
        let ghost at = rest@.len() - 1;
        assert(rest@[at] == all[at]);
        let popped = rest.pop();
        assert(popped == Some(all[at]));
        assert(rest@ =~= all.take(at));
        match popped {
            Some(Some(line)) => {
                let ghost before = shown@;
                shown.push(line);
                assert forall|j: int| 0 <= j < shown@.len() implies all[all.len() - 1 - j]
                    == Some(#[trigger] shown@[j]) by {
                    if j < before.len() {
                        assert(shown@[j] == before[j]);
                    } else {
                        assert(all.len() - 1 - j == at);
                    }
                }
            },
            _ => {
                assert(all[at] is None);
                return Err(ReportError::TimestampOutOfRange);
            },
        }
    }
    assert forall|i: int| 0 <= i < all.len() implies (#[trigger] all[i]) is Some by {
        let j = all.len() - 1 - i;
        assert(all[all.len() - 1 - j] == Some(shown@[j]));
    }
    Ok(shown)
}

/// Whether every record of `records` can be shown.
pub open spec fn all_showable(records: Seq<TranscriptionView>) -> bool {
    forall|i: int|
        0 <= i < records.len() ==> utc_text(
            (#[trigger] records[i]).timestamp,
            LOG_TIME_PATTERN@,
        ) is Some
}

/// The lines that show `recent`, a list of records that starts with the
/// newest: one line per record, the oldest record first.
pub fn log_lines(recent: &Vec<Transcription>) -> (lines: Result<Vec<String>, ReportError>)
    ensures
        match lines {
            Ok(shown) => all_showable(record_views(recent@)) && shown@.len() == recent@.len()
                && forall|i: int|
                0 <= i < shown@.len() ==> (#[trigger] shown@[i])@ == spec_log_line(
                    utc_text(recent@[recent@.len() - 1 - i]@.timestamp, LOG_TIME_PATTERN@)->Some_0,
                    recent@[recent@.len() - 1 - i]@,
                ),
            Err(e) => !all_showable(record_views(recent@)) && e == ReportError::TimestampOutOfRange,
        },
{
    let mut made: Vec<Option<String>> = Vec::new();
    let mut i: usize = 0;
    while i < recent.len()
        invariant
            i <= recent@.len(),
            made@.len() == i,
            forall|j: int|
                0 <= j < i ==> match utc_text(recent@[j]@.timestamp, LOG_TIME_PATTERN@) {
                    Some(time) => (#[trigger] made@[j]) is Some && made@[j]->Some_0@
                        == spec_log_line(time, recent@[j]@),
                    None => made@[j] is None,
                },
        decreases recent@.len() - i,
    {
        made.push(log_line(&recent[i]));
        i += 1;
    }
    let ghost views = record_views(recent@);
    proof {
        if all_present(made@) {
            assert forall|k: int| 0 <= k < views.len() implies utc_text(
                (#[trigger] views[k]).timestamp,
                LOG_TIME_PATTERN@,
            ) is Some by {
                assert(made@[k] is Some);
                assert(views[k] == recent@[k]@);
            }
        } else {
            let k = choose|k: int| 0 <= k < made@.len() && !((#[trigger] made@[k]) is Some);
            assert(views[k] == recent@[k]@);
            assert(utc_text(views[k].timestamp, LOG_TIME_PATTERN@) is None);
        }
    }
    oldest_first(made)
}

/// A peer and the time since it was last seen.
#[derive(Debug)]
pub struct PeerAge {
    pub node_id: String,
    /// Seconds between the last exchange and now; `None` if the difference
    /// is outside the range of `i64`.
    pub seconds_ago: Option<i64>,
}

/// The difference `now - last_seen`, if it can be represented.
pub open spec fn spec_seconds_ago(now: int, last_seen: int) -> Option<i64> {
    if i64::MIN <= now - last_seen <= i64::MAX {
        Some((now - last_seen) as i64)
    } else {
        None
    }
}

/// The status of a node.
#[derive(Debug)]
pub struct StatusReport {
    pub node_id: String,
    /// Records made here and not marked as synced.
    pub local: usize,
    /// Records marked as synced.
    pub synced: usize,
    /// The peers, in the order of the store.
    pub peers: Vec<PeerAge>,
}

/// The status of the node `node_id` at time `now`: how many of its records
/// are local and how many synced, and how long ago each peer was seen.
pub fn status_report(node_id: &str, store: &Storage, now: i64) -> (report: StatusReport)
    ensures
        report.node_id@ == node_id@,
        report.synced == store@.transcriptions.filter(is_synced()).len(),
        report.local + report.synced == store@.transcriptions.len(),
        report.peers@.len() == store@.peers.len(),
        forall|i: int|
            0 <= i < report.peers@.len() ==> (#[trigger] report.peers@[i]).node_id@
                == store@.peers[i].node_id && report.peers@[i].seconds_ago == spec_seconds_ago(
                now as int,
                store@.peers[i].last_seen,
            ),
{
    let (total, synced) = store.count_transcriptions();
    let cursors = store.get_peers();
    let mut peers: Vec<PeerAge> = Vec::new();
    let mut i: usize = 0;
    while i < cursors.len()
        invariant
            i <= cursors@.len(),
            peer_views(cursors@) == store@.peers,
            peers@.len() == i,
            forall|j: int|
                0 <= j < i ==> (#[trigger] peers@[j]).node_id@ == store@.peers[j].node_id
                    && peers@[j].seconds_ago == spec_seconds_ago(
                    now as int,
                    store@.peers[j].last_seen,
                ),
        decreases cursors@.len() - i,
    {
        assert(peer_views(cursors@)[i as int] == cursors@[i as int]@);
        let cursor = &cursors[i];
        peers.push(
            PeerAge {
                node_id: cursor.node_id.clone(),
                seconds_ago: now.checked_sub(cursor.last_seen),
            },
        );
        i += 1;
    }
    StatusReport { node_id: node_id.to_owned(), local: total - synced, synced, peers }
}

} // verus!
