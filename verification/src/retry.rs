//! When a post is tried again: three attempts, with a longer wait after each.
use vstd::prelude::*;

use crate::duration;
use crate::duration::Duration;

verus! {

/// How often a post is tried at most.
pub const MAX_ATTEMPTS: usize = 3;

/// How an attempt to post ended.
#[derive(Debug, Clone, Copy, PartialEq, Eq, Structural)]
pub enum Attempt {
    /// The collector answered with this HTTP status.
    Answered(u16),
    /// The request did not get through.
    Failed,
}

/// Whether the collector took the post: its status is one of the 200s.
pub open spec fn accepted(attempt: Attempt) -> bool {
    attempt matches Attempt::Answered(status) && 200 <= status < 300
}

/// Whether another attempt follows one that came after `failed` failed ones.
pub open spec fn retried(failed: nat, attempt: Attempt) -> bool {
    !accepted(attempt) && failed + 1 < MAX_ATTEMPTS
}

/// What follows an attempt.
#[derive(Debug, Clone, Copy, PartialEq, Eq, Structural)]
pub enum Verdict {
    /// The post is done.
    Done,
    /// Wait that long, then try again.
    Retry(Duration),
    /// Wait that long, then drop the batch.
    GiveUp(Duration),
}

/// The milliseconds to wait after a failed attempt, counted from zero.
pub open spec fn delay_millis(attempt: nat) -> nat {
    if attempt == 0 {
        100
    } else if attempt == 1 {
        400
    } else {
        1600
    }
}

/// The attempts at one post.
pub struct Retry {
    failed: usize,
}

impl Retry {
    #[verifier::type_invariant]
    spec fn in_range(self) -> bool {
        self.failed <= MAX_ATTEMPTS
    }

    /// How many attempts have failed.
    pub closed spec fn failed(self) -> nat {
        self.failed as nat
    }

    /// No attempt has been made yet.
    pub fn new() -> (retry: Retry)
        ensures
            retry.failed() == 0,
    {
        Retry { failed: 0 }
    }

    /// How many attempts have failed.
    pub fn failures(&self) -> (count: usize)
        ensures
            count == self.failed(),
            count <= MAX_ATTEMPTS,
    {
        proof {
            use_type_invariant(self);
        }
        self.failed
    }

    /// Takes the end of an attempt. A post that the collector took is done. Otherwise there is a
    /// wait, after the last attempt too, and then another attempt as long as there were fewer
    /// than [`MAX_ATTEMPTS`].
    pub fn ended(&mut self, attempt: Attempt) -> (verdict: Verdict)
        requires
            old(self).failed() < MAX_ATTEMPTS,
        ensures
            final(self).failed() == old(self).failed() + (if accepted(attempt) {
                0nat
            } else {
                1
            }),
            attempt == Attempt::Failed ==> verdict != Verdict::Done,
            attempt matches Attempt::Answered(status) ==> (verdict == Verdict::Done <==> 200
                <= status <= 299),
            verdict is Retry <==> verdict != Verdict::Done && old(self).failed() < 2,
            verdict matches Verdict::Retry(delay) ==> delay.nanos() == (if old(self).failed() == 0 {
                100_000_000nat
            } else {
                400_000_000
            }),
            verdict matches Verdict::GiveUp(delay) ==> delay.nanos() == 1_600_000_000,
            final(self).failed() == (if verdict == Verdict::Done {
                old(self).failed()
            } else {
                old(self).failed() + 1
            }),
            match verdict {
                Verdict::Done => accepted(attempt),
                Verdict::Retry(delay) => {
                    &&& retried(old(self).failed(), attempt)
                    &&& delay.nanos() == delay_millis(old(self).failed()) * duration::NANOS_PER_MILLI
                },
                Verdict::GiveUp(delay) => {
                    &&& !accepted(attempt)
                    &&& !retried(old(self).failed(), attempt)
                    &&& delay.nanos() == delay_millis(old(self).failed()) * duration::NANOS_PER_MILLI
                },
            },
    {
        match attempt {
            Attempt::Answered(status) => {
                if 200 <= status && status < 300 {
                    return Verdict::Done;
                }
            },
            Attempt::Failed => {},
        }
        let delay = Duration::from_millis(
            if self.failed == 0 {
                100
            } else if self.failed == 1 {
                400
            } else {
                1600
            },
        );
        self.failed = self.failed + 1;
        if self.failed < MAX_ATTEMPTS {
            Verdict::Retry(delay)
        } else {
            Verdict::GiveUp(delay)
        }
    }
}

/// How many attempts a post gets when they would end like this one after the other.
pub open spec fn attempts_made(outcomes: Seq<Attempt>, failed: nat) -> nat
    decreases outcomes.len(),
{
    if outcomes.len() == 0 {
        0
    } else if retried(failed, outcomes[0]) {
        1 + attempts_made(outcomes.skip(1), failed + 1)
    } else {
        1
    }
}

/// No post is ever tried more than [`MAX_ATTEMPTS`] times, however the attempts end.
pub proof fn lemma_attempts_bounded(outcomes: Seq<Attempt>)
    ensures
        attempts_made(outcomes, 0) <= MAX_ATTEMPTS,
{
    lemma_attempts_left(outcomes, 0);
}

/// After some failed attempts only the rest of [`MAX_ATTEMPTS`] is left.
proof fn lemma_attempts_left(outcomes: Seq<Attempt>, failed: nat)
    requires
        failed < MAX_ATTEMPTS,
    ensures
        attempts_made(outcomes, failed) <= MAX_ATTEMPTS - failed,
    decreases outcomes.len(),
{
    if outcomes.len() > 0 && retried(failed, outcomes[0]) {
        lemma_attempts_left(outcomes.skip(1), failed + 1);
    }
}

/// The milliseconds that are waited after the attempts at a post when they would end like this
/// one after the other.
pub open spec fn waits_made(outcomes: Seq<Attempt>, failed: nat) -> Seq<nat>
    decreases outcomes.len(),
{
    if outcomes.len() == 0 || accepted(outcomes[0]) {
        seq![]
    } else if retried(failed, outcomes[0]) {
        seq![delay_millis(failed)] + waits_made(outcomes.skip(1), failed + 1)
    } else {
        seq![delay_millis(failed)]
    }
}

/// The waits after the attempts at a post that is given up.
pub open spec fn all_waits() -> Seq<nat> {
    seq![100, 400, 1600]
}

/// A post is tried until the collector takes it: where the first attempt that is accepted is one
/// of the first [`MAX_ATTEMPTS`], it is the last, and after each of those before it there is a
/// wait.
pub proof fn lemma_tried_until_accepted(outcomes: Seq<Attempt>, at: int)
    requires
        0 <= at < outcomes.len(),
        at < MAX_ATTEMPTS,
        accepted(outcomes[at]),
        forall|i: int| 0 <= i < at ==> !accepted(#[trigger] outcomes[i]),
    ensures
        attempts_made(outcomes, 0) == at + 1,
        waits_made(outcomes, 0) == all_waits().take(at),
{
    reveal_with_fuel(attempts_made, 3);
    reveal_with_fuel(waits_made, 3);
    assert(waits_made(outcomes, 0) =~= all_waits().take(at));
}

/// A post is given up where the first [`MAX_ATTEMPTS`] attempts all fail: it is tried that often,
/// with every wait, and no further.
pub proof fn lemma_given_up(outcomes: Seq<Attempt>)
    requires
        outcomes.len() >= MAX_ATTEMPTS,
        forall|i: int| 0 <= i < MAX_ATTEMPTS ==> !accepted(#[trigger] outcomes[i]),
    ensures
        attempts_made(outcomes, 0) == MAX_ATTEMPTS,
        waits_made(outcomes, 0) == all_waits(),
{
    reveal_with_fuel(attempts_made, 3);
    reveal_with_fuel(waits_made, 3);
    assert(waits_made(outcomes, 0) =~= all_waits());
}

/// What counts as taken is a status from 200 to 299; an attempt without an answer does not.
pub proof fn lemma_accepted(status: u16)
    ensures
        accepted(Attempt::Answered(status)) <==> 200 <= status <= 299,
        !accepted(Attempt::Failed),
{
}

/// What an attempt is followed by: by another as long as it failed and was the first or the
/// second.
pub proof fn lemma_retried(failed: nat, attempt: Attempt)
    ensures
        retried(failed, attempt) <==> !accepted(attempt) && failed <= 1,
        delay_millis(0) == 100,
        delay_millis(1) == 400,
        delay_millis(2) == 1600,
{
}

} // verus!
