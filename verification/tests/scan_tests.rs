use octointel::probe::ProbeOutcome;
use octointel::rangefile::{load_ranges, RangeFileError};
use octointel::scan::run_scan;

fn ip(a: u32, b: u32, c: u32, d: u32) -> u32 {
    (a << 24) | (b << 16) | (c << 8) | d
}

fn match_for(addr: u32) -> ProbeOutcome {
    ProbeOutcome::Match { addr, status: 202, content_checked: false }
}

#[test]
fn single_range_single_match() {
    // A range file with one line and a verdict table that matches only
    // 10.0.0.2 yields exactly that one entry.
    let file = load_ranges(b"10.0.0.0/30\n").unwrap();
    assert!(file.rejected.is_empty());
    let hit = ip(10, 0, 0, 2);
    let table = vec![(hit, match_for(hit))];
    let r = run_scan(&file.ranges, &table, true, 4);
    assert_eq!(r.matches.len(), 1);
    assert_eq!(r.matches[0].addr, hit);
    assert_eq!(r.ranges_scanned, 1);
}

#[test]
fn second_range_match_stops_later_ranges() {
    let ranges = vec![
        b"10.0.0.0/30".to_vec(),
        b"10.0.1.0/30".to_vec(),
        b"10.0.2.0/30".to_vec(),
    ];
    let hit = ip(10, 0, 1, 1);
    let trap = ip(10, 0, 2, 1);
    let table = vec![(hit, match_for(hit)), (trap, match_for(trap))];
    let r = run_scan(&ranges, &table, true, 4);
    assert_eq!(r.matches.len(), 1);
    assert_eq!(r.matches[0].addr, hit);
    // the third range is never taken up
    assert_eq!(r.ranges_scanned, 2);
}

#[test]
fn malformed_range_is_skipped_and_others_scanned() {
    let ranges = vec![
        b"10.0.0.0/30".to_vec(),
        b"999.0.0.0/8".to_vec(),
        b"10.0.2.0/30".to_vec(),
    ];
    let first = ip(10, 0, 0, 1);
    let third = ip(10, 0, 2, 1);
    let table = vec![(first, match_for(first)), (third, match_for(third))];
    let r = run_scan(&ranges, &table, false, 4);
    assert_eq!(r.invalid, vec![1]);
    assert_eq!(r.ranges_scanned, 3);
    assert_eq!(r.matches.len(), 2);
    assert_eq!(r.matches[0].addr, first);
    assert_eq!(r.matches[1].addr, third);
}

#[test]
fn no_match_scans_everything() {
    let ranges = vec![b"10.0.0.0/30".to_vec(), b"10.0.1.0/30".to_vec()];
    let table = Vec::new();
    let r = run_scan(&ranges, &table, true, 4);
    assert!(r.matches.is_empty());
    assert_eq!(r.ranges_scanned, 2);
}

#[test]
fn match_in_earlier_range_suppresses_later_work() {
    let ranges = vec![b"10.0.0.0/30".to_vec(), b"10.0.1.0/30".to_vec()];
    let hit = ip(10, 0, 0, 0);
    let later = ip(10, 0, 1, 0);
    let table = vec![(hit, match_for(hit)), (later, match_for(later))];
    let r = run_scan(&ranges, &table, true, 4);
    assert_eq!(r.matches.len(), 1);
    assert_eq!(r.matches[0].addr, hit);
    assert_eq!(r.ranges_scanned, 1);
}

#[test]
fn range_file_skips_comments_and_blanks() {
    let content = b"# comment\n\n// another\n  10.0.0.0/30  \n";
    let file = load_ranges(content).unwrap();
    assert_eq!(file.ranges, vec![b"10.0.0.0/30".to_vec()]);
    assert!(file.rejected.is_empty());
}

#[test]
fn range_file_reports_invalid_lines() {
    let content = b"10.0.0.0/30\nnot-cidr\n999.0.0.0/8\n10.0.1.0/30\n";
    let file = load_ranges(content).unwrap();
    assert_eq!(
        file.ranges,
        vec![b"10.0.0.0/30".to_vec(), b"10.0.1.0/30".to_vec()]
    );
    assert_eq!(file.rejected, vec![1, 2]);
}

#[test]
fn range_file_with_no_valid_range_is_an_error() {
    assert_eq!(
        load_ranges(b"# only comments\n\n").unwrap_err(),
        RangeFileError::NoValidRanges
    );
    assert_eq!(
        load_ranges(b"garbage\n").unwrap_err(),
        RangeFileError::NoValidRanges
    );
    assert_eq!(load_ranges(b"").unwrap_err(), RangeFileError::NoValidRanges);
}
