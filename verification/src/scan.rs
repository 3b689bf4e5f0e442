//! The scan orchestrator: walks the given CIDR ranges in order, skips the
//! malformed ones, scans each valid range, aggregates the matches, and —
//! when stopping on first find — ends the whole scan after the first range
//! that yields a match.  One stop signal is shared across all ranges, so a
//! match in an earlier range suppresses all work in later ones.

use vstd::prelude::*;
use crate::dispatch::{
    matches_upto, outcome_for, range_probed, run_range, MatchRecord,
};
use crate::probe::ProbeOutcome;
use crate::range::{network_of, parse_cidr, parse_cidr_spec, AddressRange};
use crate::signal::StopSignal;

verus! {

/// The range a valid CIDR string denotes.
pub open spec fn range_denoted(rbytes: Seq<u8>) -> AddressRange
    recommends
        parse_cidr_spec(rbytes) is Some,
{
    let (addr, prefix) = parse_cidr_spec(rbytes)->Some_0;
    AddressRange { network: network_of(addr, prefix as nat) as u32, prefix: prefix as u8 }
}

/// The matches one CIDR string yields when its scan starts with the
/// signal unset: none when the string is malformed, else the matches of
/// probing its expansion until exhausted or stopped.
pub open spec fn range_matches_of(
    rbytes: Seq<u8>,
    table: Seq<(u32, ProbeOutcome)>,
    stop_on_find: bool,
) -> Seq<MatchRecord> {
    if parse_cidr_spec(rbytes) is Some {
        let addrs = range_denoted(rbytes).expansion();
        matches_upto(addrs, table, range_probed(addrs, table, stop_on_find))
    } else {
        Seq::empty()
    }
}

/// The matches a whole scan yields: ranges in order, each contributing
/// its matches, the scan ending early at the first range that yields any
/// match when stopping on first find.
pub open spec fn scan_matches(
    ranges: Seq<Seq<u8>>,
    table: Seq<(u32, ProbeOutcome)>,
    stop_on_find: bool,
) -> Seq<MatchRecord>
    decreases ranges.len(),
{
    if ranges.len() == 0 {
        Seq::empty()
    } else {
        let head = range_matches_of(ranges[0], table, stop_on_find);
        if stop_on_find && head.len() > 0 {
            head
        } else {
            head + scan_matches(ranges.skip(1), table, stop_on_find)
        }
    }
}

/// The indices of the malformed CIDR strings among the first `k`.
pub open spec fn invalid_upto(ranges: Seq<Seq<u8>>, k: int) -> Seq<usize>
    decreases k,
{
    if k <= 0 {
        Seq::empty()
    } else if parse_cidr_spec(ranges[k - 1]) is None {
        invalid_upto(ranges, k - 1).push((k - 1) as usize)
    } else {
        invalid_upto(ranges, k - 1)
    }
}

/// What a whole scan reports.
pub struct ScanReport {
    /// All matches, in the order found.
    pub matches: Vec<MatchRecord>,
    /// Indices of the ranges that were skipped as malformed CIDR.
    pub invalid: Vec<usize>,
    /// How many of the given ranges were taken up before the scan ended.
    pub ranges_scanned: usize,
}

fn append_records(dst: &mut Vec<MatchRecord>, src: &Vec<MatchRecord>)
    ensures
        final(dst)@ == old(dst)@ + src@,
{
    let n = src.len();
    let mut i: usize = 0;
    while i < n
        invariant
            0 <= i <= n,
            n == src@.len(),
            dst@ == old(dst)@ + src@.subrange(0, i as int),
        decreases n - i,
    {
        dst.push(src[i]);
        proof {
            assert(old(dst)@ + src@.subrange(0, i as int) + seq![src@[i as int]] =~= old(
                dst,
            )@ + src@.subrange(0, i + 1));
        }
        i += 1;
    }
    proof {
        assert(old(dst)@ + src@.subrange(0, n as int) =~= old(dst)@ + src@);
    }
}

/// Runs a whole scan over `ranges` against a verdict table: each range in
/// input order, malformed ranges skipped and reported, matches aggregated
/// across ranges, and — stopping on first find — no further range taken up
/// once one yields a match.
#[verifier::rlimit(50)]
pub fn run_scan(
    ranges: &Vec<Vec<u8>>,
    table: &Vec<(u32, ProbeOutcome)>,
    stop_on_find: bool,
    max_concurrent: usize,
) -> (r: ScanReport)
    requires
        max_concurrent >= 1,
    ensures
        r.matches@ == scan_matches(ranges.deep_view(), table@, stop_on_find),
        r.ranges_scanned <= ranges@.len(),
        !stop_on_find ==> r.ranges_scanned == ranges@.len(),
        stop_on_find ==> forall|i: int|
            0 <= i < r.ranges_scanned - 1 ==> range_matches_of(
                ranges.deep_view()[i],
                table@,
                stop_on_find,
            ).len() == 0,
        stop_on_find ==> (r.ranges_scanned == ranges@.len() || (r.ranges_scanned >= 1
            && range_matches_of(
            ranges.deep_view()[r.ranges_scanned - 1],
            table@,
            stop_on_find,
        ).len() > 0)),
        r.invalid@ == invalid_upto(ranges.deep_view(), r.ranges_scanned as int),
{
    let ghost rs = ranges.deep_view();
    let mut sig = StopSignal::new();
    let mut matches: Vec<MatchRecord> = Vec::new();
    let mut invalid: Vec<usize> = Vec::new();
    let n = ranges.len();
    let mut i: usize = 0;
    proof {
        assert(rs.skip(0) =~= rs);
    }
    loop
        invariant_except_break
            !sig.is_set_spec(),
            matches@ + scan_matches(rs.skip(i as int), table@, stop_on_find) == scan_matches(
                rs,
                table@,
                stop_on_find,
            ),
            stop_on_find ==> forall|j: int|
                0 <= j < i ==> range_matches_of(rs[j], table@, stop_on_find).len() == 0,
            stop_on_find ==> matches@.len() == 0,
            !stop_on_find ==> matches@ == scan_matches(rs.take(i as int), table@, false),
            invalid@ == invalid_upto(rs, i as int),
        invariant
            0 <= i <= n,
            n == rs.len(),
            rs == ranges.deep_view(),
            max_concurrent >= 1,
        ensures
            0 <= i <= n,
            matches@ == scan_matches(rs, table@, stop_on_find),
            !stop_on_find ==> i == n,
            stop_on_find ==> forall|j: int|
                0 <= j < i - 1 ==> range_matches_of(rs[j], table@, stop_on_find).len() == 0,
            stop_on_find ==> (i == n || (i >= 1 && range_matches_of(
                rs[i - 1],
                table@,
                stop_on_find,
            ).len() > 0)),
            invalid@ == invalid_upto(rs, i as int),
        decreases n - i,
    {
        if i >= n {
            proof {
                assert(rs.skip(i as int) =~= Seq::<Seq<u8>>::empty());
                assert(matches@ + scan_matches(rs.skip(i as int), table@, stop_on_find)
                    =~= matches@);
                if !stop_on_find {
                    assert(rs.take(i as int) =~= rs);
                }
            }
            break;
        }
        let ghost tail = rs.skip(i as int);
        proof {
            assert(tail[0] == rs[i as int]);
            assert(tail.skip(1) =~= rs.skip(i + 1));
        }
        let parsed = parse_cidr(ranges[i].as_slice());
        proof {
            assert(rs[i as int] == ranges@[i as int]@);
        }
        match parsed {
            None => {
                invalid.push(i);
                proof {
                    assert(parse_cidr_spec(rs[i as int]) is None);
                    assert(invalid@ =~= invalid_upto(rs, i + 1));
                    assert(range_matches_of(rs[i as int], table@, stop_on_find)
                        =~= Seq::<MatchRecord>::empty());
                    assert(scan_matches(tail, table@, stop_on_find) == scan_matches(
                        rs.skip(i + 1),
                        table@,
                        stop_on_find,
                    ));
                    if !stop_on_find {
                        assert(rs.take(i + 1) =~= rs.take(i as int).push(rs[i as int]));
                        lemma_scan_take_step(rs, table@, i as int);
                    }
                }
            },
            Some(range) => {
                let addrs = range.expand();
                let report = run_range(&addrs, table, stop_on_find, max_concurrent, &mut sig);
                proof {
                    assert(range == range_denoted(rs[i as int]));
                    assert(report.matches@ == range_matches_of(
                        rs[i as int],
                        table@,
                        stop_on_find,
                    ));
                }
                let found = report.matches.len() > 0;
                append_records(&mut matches, &report.matches);
                proof {
                    assert(invalid@ =~= invalid_upto(rs, i + 1));
                }
                if stop_on_find && found {
                    proof {
                        assert(scan_matches(tail, table@, stop_on_find) == report.matches@);
                        assert(matches@ =~= report.matches@);
                        assert(matches@ == scan_matches(rs, table@, stop_on_find));
                        assert(invalid_upto(rs, i + 1) == invalid_upto(rs, i as int));
                        assert(range_matches_of(rs[i as int], table@, stop_on_find).len()
                            > 0);
                    }
                    i += 1;
                    break;
                }
                proof {
                    assert(!(stop_on_find && report.matches@.len() > 0));
                    assert(scan_matches(tail, table@, stop_on_find) == report.matches@
                        + scan_matches(rs.skip(i + 1), table@, stop_on_find));
                    assert(matches@ + scan_matches(rs.skip(i + 1), table@, stop_on_find)
                        =~= scan_matches(rs, table@, stop_on_find));
                    if stop_on_find {
                        assert(report.matches@.len() == 0);
                        assert(matches@.len() == 0);
                    } else {
                        assert(rs.take(i + 1) =~= rs.take(i as int).push(rs[i as int]));
                        lemma_scan_take_step(rs, table@, i as int);
                        assert(sig.is_set_spec() == false);
                    }
                }
            },
        }
        i += 1;
    }
    ScanReport { matches, invalid, ranges_scanned: i }
}

/// Unfolds one step of the aggregate over a growing prefix of ranges, for
/// scans that never stop early.
proof fn lemma_scan_take_step(
    ranges: Seq<Seq<u8>>,
    table: Seq<(u32, ProbeOutcome)>,
    i: int,
)
    requires
        0 <= i < ranges.len(),
    ensures
        scan_matches(ranges.take(i + 1), table, false) == scan_matches(
            ranges.take(i),
            table,
            false,
        ) + range_matches_of(ranges[i], table, false),
    decreases i,
{
    let a = ranges.take(i + 1);
    let b = ranges.take(i);
    if i == 0 {
        assert(a.len() == 1);
        assert(a[0] == ranges[0]);
        assert(a.skip(1) =~= Seq::<Seq<u8>>::empty());
        assert(b =~= Seq::<Seq<u8>>::empty());
        assert(scan_matches(a, table, false) =~= range_matches_of(ranges[0], table, false));
    } else {
        assert(a[0] == ranges[0]);
        assert(b[0] == ranges[0]);
        assert(a.skip(1) =~= ranges.skip(1).take(i));
        assert(b.skip(1) =~= ranges.skip(1).take(i - 1));
        lemma_scan_take_step(ranges.skip(1), table, i - 1);
        assert(ranges.skip(1)[i - 1] == ranges[i]);
        assert(ranges.skip(1).take(i - 1 + 1) =~= a.skip(1));
        assert(scan_matches(a, table, false) == range_matches_of(ranges[0], table, false)
            + scan_matches(a.skip(1), table, false));
        assert(scan_matches(b, table, false) == range_matches_of(ranges[0], table, false)
            + scan_matches(b.skip(1), table, false));
    }
}

} // verus!
