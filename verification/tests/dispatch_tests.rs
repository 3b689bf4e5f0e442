use octointel::dispatch::{run_range, Dispatcher, MatchRecord};
use octointel::probe::ProbeOutcome;
use octointel::signal::StopSignal;

fn ip(a: u32, b: u32, c: u32, d: u32) -> u32 {
    (a << 24) | (b << 16) | (c << 8) | d
}

fn match_for(addr: u32) -> ProbeOutcome {
    ProbeOutcome::Match { addr, status: 202, content_checked: false }
}

fn record_for(addr: u32) -> MatchRecord {
    MatchRecord { addr, status: 202, content_checked: false }
}

#[test]
fn stop_signal_set_is_idempotent() {
    let mut sig = StopSignal::new();
    assert!(!sig.is_set());
    sig.set();
    assert!(sig.is_set());
    sig.set();
    assert!(sig.is_set());
    sig.record_match();
    assert!(sig.is_set());
}

#[test]
fn set_signal_admits_no_probe() {
    let mut sig = StopSignal::new();
    sig.set();
    let mut d = Dispatcher::new(vec![1, 2, 3], 8);
    assert!(d.start_probe(&sig).is_none());
}

#[test]
fn dispatcher_respects_concurrency_bound() {
    let sig = StopSignal::new();
    let mut d = Dispatcher::new(vec![1, 2, 3, 4], 2);
    assert_eq!(d.start_probe(&sig), Some(1));
    assert_eq!(d.start_probe(&sig), Some(2));
    assert!(d.start_probe(&sig).is_none());
}

#[test]
fn completing_a_match_with_stop_on_find_sets_the_signal() {
    let mut sig = StopSignal::new();
    let mut d = Dispatcher::new(vec![5, 6], 2);
    let a = d.start_probe(&sig).unwrap();
    d.complete(&mut sig, match_for(a), true);
    assert!(sig.is_set());
    assert!(d.start_probe(&sig).is_none());
}

#[test]
fn completing_a_match_without_stop_on_find_keeps_scanning() {
    let mut sig = StopSignal::new();
    let mut d = Dispatcher::new(vec![5, 6], 2);
    let a = d.start_probe(&sig).unwrap();
    d.complete(&mut sig, match_for(a), false);
    assert!(!sig.is_set());
    assert_eq!(d.start_probe(&sig), Some(6));
}

#[test]
fn sequential_probe_count_equals_match_position() {
    // maxConcurrent of 1 probes strictly in order: the match sits at
    // index 2, so exactly three addresses are attempted.
    let addrs = vec![ip(10, 0, 0, 0), ip(10, 0, 0, 1), ip(10, 0, 0, 2), ip(10, 0, 0, 3), ip(10, 0, 0, 4)];
    let table = vec![(ip(10, 0, 0, 2), match_for(ip(10, 0, 0, 2)))];
    let mut sig = StopSignal::new();
    let r = run_range(&addrs, &table, true, 1, &mut sig);
    assert_eq!(r.probed, 3);
    assert_eq!(r.matches, vec![record_for(ip(10, 0, 0, 2))]);
    assert!(sig.is_set());
}

#[test]
fn full_range_probed_without_stop_on_find() {
    let addrs = vec![1, 2, 3, 4, 5];
    let table = vec![(2, match_for(2)), (4, match_for(4))];
    let mut sig = StopSignal::new();
    let r = run_range(&addrs, &table, false, 3, &mut sig);
    assert_eq!(r.probed, 5);
    assert_eq!(r.matches, vec![record_for(2), record_for(4)]);
    assert!(!sig.is_set());
}

#[test]
fn preset_signal_probes_nothing() {
    let addrs = vec![1, 2, 3];
    let table = vec![(1, match_for(1))];
    let mut sig = StopSignal::new();
    sig.set();
    let r = run_range(&addrs, &table, true, 4, &mut sig);
    assert_eq!(r.probed, 0);
    assert!(r.matches.is_empty());
}

#[test]
fn non_match_outcomes_are_not_aggregated() {
    let addrs = vec![1, 2, 3];
    let table = vec![
        (1, ProbeOutcome::TimedOut),
        (2, ProbeOutcome::ConnectionRefused),
        (3, ProbeOutcome::PartialMatch),
    ];
    let mut sig = StopSignal::new();
    let r = run_range(&addrs, &table, true, 2, &mut sig);
    assert_eq!(r.probed, 3);
    assert!(r.matches.is_empty());
    assert!(!sig.is_set());
}
