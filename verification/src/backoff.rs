//! Ladders of delays between attempts.
use vstd::prelude::*;

verus! {

/// How often something has failed in a row.
#[derive(Debug, Clone)]
pub struct Ladder {
    pub attempt: usize,
}

/// The delay before the attempt after `attempt` failures: a ladder is climbed
/// rung by rung and stays on its last.
pub open spec fn delay_at(steps: Seq<u64>, attempt: int) -> u64 {
    if attempt < steps.len() {
        steps[attempt]
    } else {
        steps[steps.len() - 1]
    }
}

/// The failures counted before this one: a run that was healthy starts the
/// ladder over.
pub open spec fn counted(attempt: usize, healthy: bool) -> usize {
    if healthy {
        0
    } else {
        attempt
    }
}

impl Ladder {
    pub fn new() -> (r: Ladder)
        ensures
            r.attempt == 0,
    {
        Ladder { attempt: 0 }
    }

    /// Note a failure; the seconds to wait before the next attempt.
    pub fn fail(&mut self, steps: &[u64], healthy: bool) -> (delay: u64)
        requires
            steps@.len() > 0,
        ensures
            delay == delay_at(steps@, counted(old(self).attempt, healthy) as int),
            final(self).attempt == if counted(old(self).attempt, healthy) == usize::MAX {
                usize::MAX
            } else {
                (counted(old(self).attempt, healthy) + 1) as usize
            },
    {
        if healthy {
            self.attempt = 0;
        }
        let at: usize = if self.attempt < steps.len() {
            self.attempt
        } else {
            steps.len() - 1
        };
        if self.attempt < usize::MAX {
            self.attempt = self.attempt + 1;
        }
        steps[at]
    }
}

/// A ladder that never gets shorter is never climbed down, and never past its
/// last step.
pub proof fn law_delays_grow(steps: Seq<u64>, a: int, b: int)
    requires
        steps.len() > 0,
        forall|i: int, j: int| 0 <= i <= j < steps.len() ==> steps[i] <= steps[j],
        0 <= a <= b,
    ensures
        delay_at(steps, a) <= delay_at(steps, b) <= steps.last(),
{
}

} // verus!
