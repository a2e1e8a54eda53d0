use codegraph::freshness::{quick_staleness_check, stale_decision, FreshnessManager};

#[test]
fn test_stale_decision_boundaries() {
    // all sampled files modified before the index: fresh
    let older = vec![("a.py".to_string(), 40u64), ("b.py".to_string(), 50u64)];
    assert!(!stale_decision(&older, 50));
    // any sampled file modified after the index: stale
    let newer = vec![("a.py".to_string(), 40u64), ("b.py".to_string(), 51u64)];
    assert!(stale_decision(&newer, 50));
    assert!(!stale_decision(&Vec::new(), 0));
}

#[test]
fn test_is_stale_from_samples_python_files() {
    let manager =
        FreshnessManager::new("index.bin".to_string(), ".".to_string()).with_sample_size(5);
    let all_newer = vec![
        ("src/a.py".to_string(), 100u64),
        ("src/b.py".to_string(), 120u64),
        ("src/c.py".to_string(), 110u64),
    ];
    assert!(manager.is_stale_from(&all_newer, 50));
    let all_older = vec![
        ("src/a.py".to_string(), 10u64),
        ("src/b.py".to_string(), 20u64),
    ];
    assert!(!manager.is_stale_from(&all_older, 50));
    // non-Python entries are never sampled
    let wrong_kind = vec![("notes.txt".to_string(), 999u64)];
    assert!(!manager.is_stale_from(&wrong_kind, 50));
}

#[test]
fn test_quick_staleness_check() {
    let entries = vec![
        ("readme.md".to_string(), 200u64),
        ("main.py".to_string(), 90u64),
    ];
    assert!(!quick_staleness_check(&entries, 100));
    let newer = vec![("main.py".to_string(), 150u64)];
    assert!(quick_staleness_check(&newer, 100));
}

#[test]
fn test_should_check_timing() {
    let mut manager = FreshnessManager::new("i".to_string(), ".".to_string()).with_interval(300);
    manager.mark_checked_at(1_000);
    assert!(!manager.should_check_at(1_100));
    assert!(manager.should_check_at(1_300));
    // a clock that moved backward forces a check
    assert!(manager.should_check_at(900));
}
