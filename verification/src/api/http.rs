//! Retry policy of the outbound webhook.
//!
//! A transcription is posted once; a failed attempt is repeated after 1, 2
//! and 4 seconds, and the fourth failure is final. This module decides, the
//! caller sends and sleeps.

use vstd::prelude::*;

verus! {

/// Number of repetitions after the first attempt.
pub const MAX_RETRIES: u32 = 3;

/// Time allowed for one request, in seconds.
pub const REQUEST_TIMEOUT_SECS: u64 = 30;

/// How one attempt ended.
#[derive(Debug, Clone, Copy, PartialEq, Eq, Structural)]
pub enum AttemptOutcome {
    /// The endpoint answered with this status code.
    Status(u16),
    /// No answer arrived.
    TransportError,
}

/// Why the last counted attempt failed.
#[derive(Debug, Clone, Copy, PartialEq, Eq, Structural)]
pub enum PostFailure {
    /// The endpoint answered with a status outside 200 to 299.
    Status(u16),
    /// No answer arrived.
    Transport,
}

/// What to do after an attempt.
#[derive(Debug, Clone, Copy, PartialEq, Eq, Structural)]
pub enum RetryDecision {
    /// The post went through.
    Done,
    /// Wait `delay_secs`, then make attempt number `retry` of `MAX_RETRIES`.
    RetryAfter { delay_secs: u64, retry: u32 },
    /// All retries are used up.
    GiveUp(PostFailure),
}

/// Whether a status code reports success: 200 to 299.
pub open spec fn spec_is_success(status: u16) -> bool {
    200 <= status < 300
}

/// Whether a status code reports success: 200 to 299.
#[verifier::when_used_as_spec(spec_is_success)]
pub fn is_success(status: u16) -> (success: bool)
    ensures
        success == spec_is_success(status),
{
    200 <= status && status < 300
}

/// The failure that an outcome amounts to, if it is one.
pub open spec fn failure_of(outcome: AttemptOutcome) -> Option<PostFailure> {
    match outcome {
        AttemptOutcome::Status(status) => if spec_is_success(status) {
            None
        } else {
            Some(PostFailure::Status(status))
        },
        AttemptOutcome::TransportError => Some(PostFailure::Transport),
    }
}

/// Seconds to wait before retry number `retry`: 1, 2, 4, doubling each time.
pub open spec fn backoff_secs(retry: nat) -> nat
    decreases retry,
{
    if retry <= 1 {
        1
    } else {
        2 * backoff_secs((retry - 1) as nat)
    }
}

/// The decision after an attempt, given the retries made before it.
pub open spec fn decision_after(retries: nat, outcome: AttemptOutcome) -> RetryDecision {
    match failure_of(outcome) {
        None => RetryDecision::Done,
        Some(failure) => if retries < MAX_RETRIES {
            RetryDecision::RetryAfter {
                delay_secs: backoff_secs(retries + 1) as u64,
                retry: (retries + 1) as u32,
            }
        } else {
            RetryDecision::GiveUp(failure)
        },
    }
}

/// Retry state of one post.
#[derive(Debug)]
pub struct RetryPolicy {
    retry_count: u32,
}

impl RetryPolicy {
    #[verifier::type_invariant]
    spec fn within_limit(&self) -> bool {
        self.retry_count <= MAX_RETRIES
    }

    /// Retries made so far.
    pub closed spec fn retries(&self) -> nat {
        self.retry_count as nat
    }

    /// The state before the first attempt.
    pub fn new() -> (policy: Self)
        ensures
            policy.retries() == 0,
    {
        RetryPolicy { retry_count: 0 }
    }

    /// Retries made so far: never more than `MAX_RETRIES`.
    pub fn retry_count(&self) -> (count: u32)
        ensures
            count == self.retries(),
            count <= MAX_RETRIES,
    {
        proof {
            use_type_invariant(self);
        }
        self.retry_count
    }

    /// Records how an attempt ended and says what follows.
    ///
    /// Success ends the post. A failure is answered by a retry with the next
    /// delay as long as fewer than `MAX_RETRIES` retries were made, and by
    /// giving up after that.
    pub fn on_outcome(&mut self, outcome: AttemptOutcome) -> (decision: RetryDecision)
        ensures
            decision == decision_after(old(self).retries(), outcome),
            decision is RetryAfter ==> final(self).retries() == old(self).retries() + 1,
            !(decision is RetryAfter) ==> final(self).retries() == old(self).retries(),
            decision matches RetryDecision::RetryAfter { delay_secs, retry } ==> 1 <= retry
                <= MAX_RETRIES && 1 <= delay_secs <= 4,
    {
        let failure = match outcome {
            AttemptOutcome::Status(status) => {
                if is_success(status) {
                    return RetryDecision::Done;
                }
                PostFailure::Status(status)
            },
            AttemptOutcome::TransportError => PostFailure::Transport,
        };
        if self.retry_count < MAX_RETRIES {
            self.retry_count = self.retry_count + 1;
            let mut delay_secs: u64 = 1;
            let mut step: u32 = 1;
            while step < self.retry_count
                invariant
                    1 <= step <= self.retry_count <= MAX_RETRIES,
                    delay_secs == backoff_secs(step as nat),
                    1 <= delay_secs <= 4,
                decreases self.retry_count - step,
            {
                proof {
                    reveal_with_fuel(backoff_secs, 4);
                }
                delay_secs = delay_secs * 2;
                step = step + 1;
            }
            RetryDecision::RetryAfter { delay_secs, retry: self.retry_count }
        } else {
            RetryDecision::GiveUp(failure)
        }
    }
}

/// The decisions over a run of attempts with the given outcomes, starting
/// after `retries` retries. (A caller stops at the first decision that is
/// no retry; the run is defined beyond it all the same.)
pub open spec fn decisions(retries: nat, outcomes: Seq<AttemptOutcome>) -> Seq<RetryDecision>
    decreases outcomes.len(),
{
    if outcomes.len() == 0 {
        Seq::empty()
    } else {
        let first = decision_after(retries, outcomes[0]);
        let next = if first is RetryAfter {
            retries + 1
        } else {
            retries
        };
        seq![first] + decisions(next, outcomes.skip(1))
    }
}

/// However attempts end, at most `MAX_RETRIES` of them are answered by a
/// retry.
pub proof fn lemma_retries_are_bounded(retries: nat, outcomes: Seq<AttemptOutcome>)
    requires
        retries <= MAX_RETRIES,
    ensures
        decisions(retries, outcomes).filter(|d: RetryDecision| d is RetryAfter).len()
            <= MAX_RETRIES - retries,
    decreases outcomes.len(),
{
    let retried = |d: RetryDecision| d is RetryAfter;
    if outcomes.len() == 0 {
        assert(decisions(retries, outcomes).filter(retried).len() == 0) by {
            reveal(Seq::filter);
        }
    } else {
        let first = decision_after(retries, outcomes[0]);
        let next = if first is RetryAfter {
            retries + 1
        } else {
            retries
        };
        lemma_retries_are_bounded(next, outcomes.skip(1));
        let rest = decisions(next, outcomes.skip(1));
        let head = seq![first];
        Seq::filter_distributes_over_add(head, rest, retried);
        assert(head.filter(retried).len() == if first is RetryAfter {
            1int
        } else {
            0int
        }) by {
            reveal(Seq::filter);
            assert(head.drop_last() =~= Seq::<RetryDecision>::empty());
            assert(head.drop_last().filter(retried) =~= Seq::<RetryDecision>::empty());
        }
    }
}

/// The waits between attempts are 1, 2 and 4 seconds.
pub proof fn lemma_backoff_schedule()
    ensures
        backoff_secs(1) == 1,
        backoff_secs(2) == 2,
        backoff_secs(3) == 4,
{
    reveal_with_fuel(backoff_secs, 4);
}

} // verus!
