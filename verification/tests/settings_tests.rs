use octointel::settings::suggest_settings;

#[test]
fn high_end_tier() {
    let s = suggest_settings(8, 16);
    assert_eq!(s.workers, 10000);
    assert_eq!(s.timeout_ms, 300);
    assert_eq!(s.worker_threads, 8);
}

#[test]
fn mid_range_tier() {
    let s = suggest_settings(4, 8);
    assert_eq!(s.workers, 5000);
    assert_eq!(s.timeout_ms, 500);
}

#[test]
fn low_tier() {
    let s = suggest_settings(2, 4);
    assert_eq!(s.workers, 2000);
    assert_eq!(s.timeout_ms, 1000);
}

#[test]
fn very_low_tier() {
    let s = suggest_settings(1, 2);
    assert_eq!(s.workers, 1000);
    assert_eq!(s.timeout_ms, 1000);
}

#[test]
fn plenty_of_memory_but_few_cores_is_not_aggressive() {
    let s = suggest_settings(4, 32);
    assert_eq!(s.workers, 10000);
    assert_eq!(s.timeout_ms, 500);
}

#[test]
fn worker_threads_are_clamped() {
    assert_eq!(suggest_settings(32, 16).worker_threads, 16);
    assert_eq!(suggest_settings(2, 16).worker_threads, 4);
    assert_eq!(suggest_settings(12, 16).worker_threads, 12);
}
