//! The stop coordinator: a shared cancellation flag and a monotonically
//! increasing match counter.  Once set, the flag stays set for the rest of
//! the invocation; the fields are private so that every change goes
//! through the operations below, each of which preserves a set flag.

use vstd::prelude::*;

verus! {

/// Shared early-stop state for one whole invocation: one flag, one
/// match counter.
pub struct StopSignal {
    stopped: bool,
    match_count: u64,
}

impl StopSignal {
    /// Whether the signal has been set.
    pub closed spec fn is_set_spec(self) -> bool {
        self.stopped
    }

    /// How many matches have been recorded.
    pub closed spec fn count_spec(self) -> u64 {
        self.match_count
    }

    /// The state after `set`: the flag raised, the counter untouched.
    pub closed spec fn set_spec(self) -> StopSignal {
        StopSignal { stopped: true, match_count: self.match_count }
    }

    /// A fresh signal: not set, no matches recorded.
    pub fn new() -> (s: StopSignal)
        ensures
            !s.is_set_spec(),
            s.count_spec() == 0,
    {
        StopSignal { stopped: false, match_count: 0 }
    }

    /// Raises the flag.  Idempotent: the result depends only on the
    /// counter, never on how often `set` has already run.
    pub fn set(&mut self)
        ensures
            *final(self) == old(self).set_spec(),
            final(self).is_set_spec(),
            final(self).count_spec() == old(self).count_spec(),
    {
        self.stopped = true;
    }

    /// Reads the flag.
    pub fn is_set(&self) -> (r: bool)
        ensures
            r == self.is_set_spec(),
    {
        self.stopped
    }

    /// Counts one confirmed match.  The counter only grows, and the flag
    /// is untouched.
    pub fn record_match(&mut self)
        ensures
            final(self).is_set_spec() == old(self).is_set_spec(),
            final(self).count_spec() >= old(self).count_spec(),
            old(self).count_spec() < u64::MAX ==> final(self).count_spec() == old(
                self,
            ).count_spec() + 1,
    {
        if self.match_count < u64::MAX {
            self.match_count = self.match_count + 1;
        }
    }
}

/// Setting the signal is idempotent: a second `set` changes nothing, and
/// a set signal reads as set.  Together with the operations' contracts —
/// `set` and `record_match` both keep a raised flag raised, and nothing
/// else can touch the private fields — the flag never falls back to unset
/// within one invocation.
pub proof fn lemma_set_idempotent(s: StopSignal)
    ensures
        s.set_spec().is_set_spec(),
        s.set_spec().set_spec() == s.set_spec(),
        s.set_spec().count_spec() == s.count_spec(),
{
}

} // verus!
