//! The bounded dispatcher: admits probes while fewer than the configured
//! bound are outstanding, the address sequence is not exhausted and the
//! stop signal is unset; collects match records as probes complete; and
//! sets the signal on a match when the scan stops on first find.
//!
//! The dispatcher is a step machine: `start_probe` hands out the next address,
//! `complete` takes a probe's outcome.  A concurrent driver calls the two
//! from its event loop; [`run_range`] is the sequential driver, used where
//! probe verdicts are supplied up front.

use vstd::prelude::*;
use crate::probe::ProbeOutcome;
use crate::signal::StopSignal;

verus! {

/// One confirmed match: the address that answered, the status code seen,
/// and whether a content pattern was checked as well.
#[derive(Clone, Copy, PartialEq, Eq, Structural, Debug)]
pub struct MatchRecord {
    pub addr: u32,
    pub status: u16,
    pub content_checked: bool,
}

/// The record a match outcome aggregates to.
pub open spec fn record_of(o: ProbeOutcome) -> MatchRecord {
    MatchRecord {
        addr: o->Match_addr,
        status: o->Match_status,
        content_checked: o->Match_content_checked,
    }
}

/// Per-range dispatch state.
pub struct Dispatcher {
    /// The range's addresses, in the order probes are admitted.
    pub addrs: Vec<u32>,
    /// Index of the next address to admit.
    pub next: usize,
    /// Number of admitted probes not yet completed.
    pub in_flight: usize,
    /// Upper bound on `in_flight`.
    pub max_concurrent: usize,
    /// Matches aggregated so far, in completion order.
    pub matches: Vec<MatchRecord>,
    /// Number of completed probes.
    pub progress: u64,
}

impl Dispatcher {
    /// Dispatch bookkeeping stays consistent: every admitted address
    /// exists, outstanding probes respect the bound, and the outstanding
    /// count is exactly admissions minus completions.
    pub open spec fn wf(self) -> bool {
        &&& self.next <= self.addrs@.len()
        &&& self.in_flight <= self.max_concurrent
        &&& 1 <= self.max_concurrent
        &&& self.in_flight as int == self.next - self.progress
    }

    /// Whether a new probe may start: signal unset, addresses left, and
    /// room under the concurrency bound.
    pub open spec fn can_start(self, sig: StopSignal) -> bool {
        &&& !sig.is_set_spec()
        &&& self.next < self.addrs@.len()
        &&& self.in_flight < self.max_concurrent
    }

    /// A dispatcher over `addrs` with nothing admitted yet.
    pub fn new(addrs: Vec<u32>, max_concurrent: usize) -> (d: Dispatcher)
        requires
            max_concurrent >= 1,
        ensures
            d.wf(),
            d.addrs == addrs,
            d.max_concurrent == max_concurrent,
            d.next == 0,
            d.in_flight == 0,
            d.matches@ =~= Seq::<MatchRecord>::empty(),
            d.progress == 0,
    {
        Dispatcher {
            addrs,
            next: 0,
            in_flight: 0,
            max_concurrent,
            matches: Vec::new(),
            progress: 0,
        }
    }

    /// Admits the next probe if the signal is unset, addresses remain and
    /// the bound leaves room; otherwise changes nothing.  A set signal
    /// never admits: this is the early-stop guarantee.
    pub fn start_probe(&mut self, sig: &StopSignal) -> (r: Option<u32>)
        requires
            old(self).wf(),
        ensures
            final(self).wf(),
            final(self).addrs == old(self).addrs,
            final(self).max_concurrent == old(self).max_concurrent,
            final(self).matches == old(self).matches,
            final(self).progress == old(self).progress,
            r is Some <==> old(self).can_start(*sig),
            sig.is_set_spec() ==> r is None,
            r is None ==> *final(self) == *old(self),
            r is Some ==> {
                &&& r->0 == old(self).addrs@[old(self).next as int]
                &&& final(self).next == old(self).next + 1
                &&& final(self).in_flight == old(self).in_flight + 1
            },
    {
        if sig.is_set() {
            return None;
        }
        if self.next >= self.addrs.len() {
            return None;
        }
        if self.in_flight >= self.max_concurrent {
            return None;
        }
        let addr = self.addrs[self.next];
        self.next = self.next + 1;
        self.in_flight = self.in_flight + 1;
        Some(addr)
    }

    /// Takes one completed probe's outcome: counts progress, and on a
    /// match appends the record, bumps the shared match counter, and —
    /// when the scan stops on first find — sets the stop signal.
    pub fn complete(
        &mut self,
        sig: &mut StopSignal,
        outcome: ProbeOutcome,
        stop_on_find: bool,
    )
        requires
            old(self).wf(),
            old(self).in_flight >= 1,
        ensures
            final(self).wf(),
            final(self).addrs == old(self).addrs,
            final(self).max_concurrent == old(self).max_concurrent,
            final(self).next == old(self).next,
            final(self).in_flight == old(self).in_flight - 1,
            final(self).progress == old(self).progress + 1,
            outcome is Match ==> {
                &&& final(self).matches@ == old(self).matches@.push(record_of(outcome))
                &&& (stop_on_find ==> final(sig).is_set_spec())
                &&& (!stop_on_find ==> final(sig).is_set_spec() == old(sig).is_set_spec())
                &&& final(sig).count_spec() >= old(sig).count_spec()
                &&& (old(sig).count_spec() < u64::MAX ==> final(sig).count_spec() == old(
                    sig,
                ).count_spec() + 1)
            },
            !(outcome is Match) ==> {
                &&& final(self).matches == old(self).matches
                &&& *final(sig) == *old(sig)
            },
            old(sig).is_set_spec() ==> final(sig).is_set_spec(),
    {
        self.in_flight = self.in_flight - 1;
        proof {
            assert(old(self).progress < old(self).next <= usize::MAX);
        }
        self.progress = self.progress + 1;
        if let ProbeOutcome::Match { addr, status, content_checked } = outcome {
            self.matches.push(MatchRecord { addr, status, content_checked });
            sig.record_match();
            if stop_on_find {
                sig.set();
            }
        }
    }
}

/// A set stop signal admits no probe, whatever the dispatcher's state.
pub proof fn lemma_stopped_blocks_start(d: Dispatcher, sig: StopSignal)
    requires
        sig.is_set_spec(),
    ensures
        !d.can_start(sig),
{
}

/// A table of probe verdicts: the outcome probing `addr` yields is the
/// first entry for `addr`, and `NoResponse` where the table has none.
pub open spec fn outcome_for(table: Seq<(u32, ProbeOutcome)>, addr: u32) -> ProbeOutcome
    decreases table.len(),
{
    if table.len() == 0 {
        ProbeOutcome::NoResponse
    } else if table[0].0 == addr {
        table[0].1
    } else {
        outcome_for(table.skip(1), addr)
    }
}

/// Looks an address up in a verdict table.
pub fn lookup_outcome(table: &Vec<(u32, ProbeOutcome)>, addr: u32) -> (r: ProbeOutcome)
    ensures
        r == outcome_for(table@, addr),
{
    let n = table.len();
    let mut i: usize = 0;
    proof {
        assert(table@.skip(0) =~= table@);
    }
    while i < n
        invariant
            0 <= i <= n,
            n == table@.len(),
            outcome_for(table@, addr) == outcome_for(table@.skip(i as int), addr),
        decreases n - i,
    {
        if table[i].0 == addr {
            return table[i].1;
        }
        proof {
            assert(table@.skip(i as int).skip(1) =~= table@.skip(i + 1));
        }
        i += 1;
    }
    ProbeOutcome::NoResponse
}

/// How many probes a range scan runs when the signal starts unset: all of
/// them, or — when the scan stops on first find — up to and including the
/// first address whose verdict is a match.
pub open spec fn range_probed(
    addrs: Seq<u32>,
    table: Seq<(u32, ProbeOutcome)>,
    stop_on_find: bool,
) -> int
    decreases addrs.len(),
{
    if addrs.len() == 0 {
        0
    } else if stop_on_find && outcome_for(table, addrs[0]) is Match {
        1
    } else {
        1 + range_probed(addrs.skip(1), table, stop_on_find)
    }
}

/// The match records the first `k` probed addresses yield, in probe order.
pub open spec fn matches_upto(
    addrs: Seq<u32>,
    table: Seq<(u32, ProbeOutcome)>,
    k: int,
) -> Seq<MatchRecord>
    decreases k,
{
    if k <= 0 {
        Seq::empty()
    } else {
        matches_upto(addrs, table, k - 1) + (if outcome_for(table, addrs[k - 1]) is Match {
            seq![record_of(outcome_for(table, addrs[k - 1]))]
        } else {
            Seq::empty()
        })
    }
}

proof fn lemma_range_probed_bounds(
    addrs: Seq<u32>,
    table: Seq<(u32, ProbeOutcome)>,
    stop_on_find: bool,
)
    ensures
        0 <= range_probed(addrs, table, stop_on_find) <= addrs.len(),
    decreases addrs.len(),
{
    if addrs.len() > 0 && !(stop_on_find && outcome_for(table, addrs[0]) is Match) {
        lemma_range_probed_bounds(addrs.skip(1), table, stop_on_find);
    }
}

/// The probed count is pinned by its characterization: no match verdict
/// strictly before the last probed address, and either the range was
/// exhausted or the last probed address matched (under stop-on-find).
proof fn lemma_range_probed_eq(
    addrs: Seq<u32>,
    table: Seq<(u32, ProbeOutcome)>,
    stop_on_find: bool,
    k: int,
)
    requires
        0 <= k <= addrs.len(),
        !stop_on_find ==> k == addrs.len(),
        stop_on_find ==> forall|j: int|
            0 <= j < k - 1 ==> !(outcome_for(table, addrs[j]) is Match),
        stop_on_find ==> ((k >= 1 && outcome_for(table, addrs[k - 1]) is Match) || k
            == addrs.len()),
    ensures
        range_probed(addrs, table, stop_on_find) == k,
    decreases addrs.len(),
{
    if addrs.len() == 0 {
        return;
    }
    if stop_on_find && outcome_for(table, addrs[0]) is Match {
        // the first probe matches, so k can only be 1
        if k >= 2 {
            assert(!(outcome_for(table, addrs[0]) is Match));
        }
        assert(k == 1);
        return;
    }
    // the first probe runs and does not end the range
    let rest = addrs.skip(1);
    assert(rest.len() == addrs.len() - 1);
    if stop_on_find {
        assert(k >= 1);
        assert forall|j: int| 0 <= j < (k - 1) - 1 implies !(outcome_for(table, rest[j])
            is Match) by {
            assert(rest[j] == addrs[j + 1]);
        }
        if k - 1 >= 1 && outcome_for(table, addrs[k - 1]) is Match {
            assert(rest[k - 2] == addrs[k - 1]);
        }
    }
    lemma_range_probed_eq(rest, table, stop_on_find, k - 1);
}

/// With no match verdict among the first `k` addresses, no records come
/// out of them.
proof fn lemma_matches_upto_empty(
    addrs: Seq<u32>,
    table: Seq<(u32, ProbeOutcome)>,
    k: int,
)
    requires
        forall|j: int| 0 <= j < k ==> !(outcome_for(table, addrs[j]) is Match),
    ensures
        matches_upto(addrs, table, k).len() == 0,
    decreases k,
{
    if k > 0 {
        lemma_matches_upto_empty(addrs, table, k - 1);
    }
}

/// What one whole range yielded.
pub struct RangeReport {
    /// Matches in completion order.
    pub matches: Vec<MatchRecord>,
    /// How many addresses were probed before the range was exhausted or
    /// the stop signal ended admission.
    pub probed: u64,
}

/// Scans one expanded range sequentially against a verdict table: probes
/// in address order, one at a time, until the range is exhausted or —
/// stopping on first find — a probe matches; a signal already set admits
/// nothing.  Matches are aggregated in probe order, the shared counter
/// grows by one per match, and the signal ends set exactly when it began
/// set or a match was found under stop-on-find.
pub fn run_range(
    addrs: &Vec<u32>,
    table: &Vec<(u32, ProbeOutcome)>,
    stop_on_find: bool,
    max_concurrent: usize,
    sig: &mut StopSignal,
) -> (r: RangeReport)
    requires
        max_concurrent >= 1,
    ensures
        r.probed as int == (if old(sig).is_set_spec() {
            0
        } else {
            range_probed(addrs@, table@, stop_on_find)
        }),
        r.probed <= addrs@.len(),
        r.matches@ == matches_upto(addrs@, table@, r.probed as int),
        // with stop-on-find, everything strictly before the last probed
        // address was a non-match: nothing was admitted past the first find
        stop_on_find && !old(sig).is_set_spec() ==> forall|j: int|
            0 <= j < r.probed - 1 ==> !(outcome_for(table@, addrs@[j]) is Match),
        final(sig).is_set_spec() == (old(sig).is_set_spec() || (stop_on_find
            && r.matches@.len() > 0)),
        old(sig).count_spec() + r.matches@.len() <= u64::MAX ==> final(sig).count_spec()
            == old(sig).count_spec() + r.matches@.len(),
        final(sig).count_spec() >= old(sig).count_spec(),
{
    let mut disp = Dispatcher::new(clone_addrs(addrs), max_concurrent);
    loop
        invariant
            disp.wf(),
            disp.addrs@ == addrs@,
            disp.max_concurrent == max_concurrent,
            disp.in_flight == 0,
            disp.progress == disp.next,
            disp.matches@ == matches_upto(addrs@, table@, disp.next as int),
            old(sig).is_set_spec() ==> (*sig == *old(sig) && disp.next == 0),
            !old(sig).is_set_spec() && stop_on_find ==> forall|j: int|
                0 <= j < disp.next - 1 ==> !(outcome_for(table@, addrs@[j]) is Match),
            !old(sig).is_set_spec() ==> (sig.is_set_spec() <==> (stop_on_find && disp.next
                > 0 && outcome_for(table@, addrs@[disp.next - 1]) is Match)),
            !old(sig).is_set_spec() && !stop_on_find ==> !sig.is_set_spec(),
            old(sig).count_spec() + disp.matches@.len() <= u64::MAX ==> sig.count_spec()
                == old(sig).count_spec() + disp.matches@.len(),
            sig.count_spec() >= old(sig).count_spec(),
        ensures
            sig.is_set_spec() || disp.next == addrs@.len(),
        decreases addrs@.len() - disp.next,
    {
        let admitted = disp.start_probe(sig);
        match admitted {
            Some(addr) => {
                let outcome = lookup_outcome(table, addr);
                proof {
                    if outcome is Match {
                        assert(matches_upto(addrs@, table@, disp.next as int)
                            =~= matches_upto(addrs@, table@, disp.next - 1).push(
                            record_of(outcome),
                        ));
                    } else {
                        assert(matches_upto(addrs@, table@, disp.next as int)
                            =~= matches_upto(addrs@, table@, disp.next - 1));
                    }
                }
                disp.complete(sig, outcome, stop_on_find);
            },
            None => {
                break;
            },
        }
    }
    proof {
        if !old(sig).is_set_spec() {
            lemma_range_probed_bounds(addrs@, table@, stop_on_find);
            if stop_on_find && disp.next > 0 && outcome_for(
                table@,
                addrs@[disp.next - 1],
            ) is Match {
                lemma_range_probed_eq(addrs@, table@, stop_on_find, disp.next as int);
            } else {
                // admission stopped because the range was exhausted
                assert(disp.next == addrs@.len());
                lemma_range_probed_eq(addrs@, table@, stop_on_find, disp.next as int);
            }
            if stop_on_find {
                if disp.next > 0 && outcome_for(table@, addrs@[disp.next - 1]) is Match {
                    assert(disp.matches@.len() > 0);
                } else {
                    lemma_matches_upto_empty(addrs@, table@, disp.next as int);
                }
            } else {
                assert(!sig.is_set_spec());
            }
        } else {
            assert(disp.matches@ =~= Seq::<MatchRecord>::empty());
        }
    }
    RangeReport { matches: disp.matches, probed: disp.progress }
}

/// A copy of the address vector for the dispatcher to own.
fn clone_addrs(addrs: &Vec<u32>) -> (r: Vec<u32>)
    ensures
        r@ == addrs@,
{
    let mut r: Vec<u32> = Vec::new();
    let n = addrs.len();
    let mut i: usize = 0;
    while i < n
        invariant
            0 <= i <= n,
            n == addrs@.len(),
            r@ == addrs@.subrange(0, i as int),
        decreases n - i,
    {
        r.push(addrs[i]);
        proof {
            assert(r@ =~= addrs@.subrange(0, i + 1));
        }
        i += 1;
    }
    proof {
        assert(r@ =~= addrs@);
    }
    r
}

} // verus!
