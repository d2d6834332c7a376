use prequal::backend::{Backend, Endpoint};
use prequal::probe::{ProbeResult, ProbeTable, MAX_PROBE_AGE_MS, MAX_USES_BEFORE_EXPIRE};
use prequal::PROBE_TABLE_SIZE;

const NOW: u64 = 1_000_000;

fn create_test_probe(
    idx: usize,
    name: &str,
    rif: u64,
    est_latency: u64,
    timestamp: u64,
) -> ProbeResult {
    ProbeResult::new(
        timestamp,
        rif,
        est_latency,
        Backend::new(
            name.to_string(),
            Endpoint::new(127, 0, 0, 1, 8080),
            idx as u64,
        ),
    )
}

#[test]
fn test_probe_table() {
    let table = ProbeTable::new();
    assert_eq!(table.len(), 0);
}

#[test]
fn test_probe_table_add_result() {
    let mut table = ProbeTable::new();
    let result = create_test_probe(0, "test", 10, 100, NOW);
    table.add_result(result, NOW);
    assert_eq!(table.len(), 1);
}

#[test]
fn test_probe_table_find_best() {
    let mut table = ProbeTable::new();
    let result = create_test_probe(0, "test", 10, 100, NOW);
    table.add_result(result.clone(), NOW);
    assert_eq!(table.find_best(NOW), Some(result.backend));
}

#[test]
fn test_probe_table_remove_backend() {
    let mut table = ProbeTable::new();
    let result = create_test_probe(0, "test", 10, 100, NOW);
    table.add_result(result.clone(), NOW);
    table.remove_backend(result.backend);
    assert_eq!(table.len(), 0);
}

#[test]
fn test_probe_table_remove_stale() {
    let mut table = ProbeTable::new();
    let result = create_test_probe(0, "test", 10, 100, NOW - MAX_PROBE_AGE_MS - 1000);
    table.add_result(result.clone(), NOW);
    table.remove_stale(NOW);
    assert_eq!(table.len(), 0);
}

#[test]
fn test_probe_table_has_enough_probes() {
    let mut table = ProbeTable::new();
    table.add_result(create_test_probe(0, "test", 10, 100, NOW), NOW);
    assert!(
        !table.has_enough_probes(NOW),
        "Table should not yet have enough probes"
    );
    for idx in 0..PROBE_TABLE_SIZE / 2 {
        table.add_result(
            create_test_probe(idx + 1, &format!("test-{}", idx), 10, 100, NOW),
            NOW,
        );
    }
    assert!(
        table.has_enough_probes(NOW),
        "Table should now have enough probes"
    );
}

#[test]
fn hcl_cold_latency_wins() {
    // Samples A(rif=5, lat=200), B(rif=6, lat=100), C(rif=90, lat=50):
    // max RIF 90, threshold 72; B is the cold sample of least latency.
    let mut table = ProbeTable::new();
    table.add_result(create_test_probe(1, "a", 5, 200, NOW), NOW);
    table.add_result(create_test_probe(2, "b", 6, 100, NOW), NOW);
    table.add_result(create_test_probe(3, "c", 90, 50, NOW), NOW);
    let best = table.find_best(NOW).unwrap();
    assert_eq!(best.handle, 2);
    assert_eq!(best.name, "b");
}

#[test]
fn hcl_hot_rif_fallback() {
    // A(rif=80, lat=50), B(rif=90, lat=60), C(rif=100, lat=70): max RIF
    // 100, threshold 80, so A is cold and wins.
    let mut table = ProbeTable::new();
    table.add_result(create_test_probe(1, "a", 80, 50, NOW), NOW);
    table.add_result(create_test_probe(2, "b", 90, 60, NOW), NOW);
    table.add_result(create_test_probe(3, "c", 100, 70, NOW), NOW);
    assert_eq!(table.find_best(NOW).unwrap().handle, 1);
    // Replace A with rif 85: every sample is now hot, and the sample of
    // least RIF -- A itself at 85 -- is returned.
    table.add_result(create_test_probe(1, "a", 85, 50, NOW), NOW);
    assert_eq!(table.find_best(NOW).unwrap().handle, 1);
}

#[test]
fn hcl_all_hot_minimal_rif() {
    // Only hot samples: the least RIF wins regardless of latency.
    let mut table = ProbeTable::new();
    table.add_result(create_test_probe(1, "a", 95, 1, NOW), NOW);
    table.add_result(create_test_probe(2, "b", 90, 999, NOW), NOW);
    table.add_result(create_test_probe(3, "c", 100, 1, NOW), NOW);
    assert_eq!(table.find_best(NOW).unwrap().handle, 2);
}

#[test]
fn eviction_prefers_hot_highest_latency() {
    // Fill the table with 16 cold samples of ascending latencies
    // 10..160, then insert one hot sample (rif=100, lat=50). The
    // partition over all 17 puts only the new sample in the hot class,
    // so the eviction removes it and the table is unchanged.
    let mut table = ProbeTable::new();
    for i in 0..PROBE_TABLE_SIZE {
        let lat = 10 + (i as u64) * 10;
        table.add_result(create_test_probe(i, &format!("cold-{}", i), 10, lat, NOW), NOW);
    }
    assert_eq!(table.len(), PROBE_TABLE_SIZE);
    let hot = create_test_probe(100, "hot", 100, 50, NOW);
    let hot_backend = hot.backend.clone();
    table.add_result(hot, NOW);
    assert_eq!(table.len(), PROBE_TABLE_SIZE);
    // The hot sample is gone: purging its backend removes nothing.
    table.remove_backend(hot_backend);
    assert_eq!(table.len(), PROBE_TABLE_SIZE);
    // A cold sample is still present: purging it removes one entry.
    let cold15 = create_test_probe(15, "cold-15", 10, 160, NOW);
    table.remove_backend(cold15.backend);
    assert_eq!(table.len(), PROBE_TABLE_SIZE - 1);
}

#[test]
fn used_count_expires_sample() {
    // A sample may be consumed MAX_USES_BEFORE_EXPIRE times; after
    // that, selection no longer returns it.
    let mut table = ProbeTable::new();
    table.add_result(create_test_probe(1, "a", 1, 1, NOW), NOW);
    for _ in 0..MAX_USES_BEFORE_EXPIRE {
        assert_eq!(table.find_best(NOW).unwrap().handle, 1);
    }
    assert_eq!(table.find_best(NOW), None);
}

#[test]
fn stale_sample_not_selected() {
    let mut table = ProbeTable::new();
    table.add_result(create_test_probe(1, "a", 1, 1, NOW), NOW);
    let later = NOW + MAX_PROBE_AGE_MS + 1000;
    assert_eq!(table.find_best(later), None);
    assert_eq!(table.len(), 0);
}

#[test]
fn duplicate_backend_replaced() {
    // At most one sample per backend identity: re-adding replaces.
    let mut table = ProbeTable::new();
    table.add_result(create_test_probe(7, "a", 5, 100, NOW), NOW);
    table.add_result(create_test_probe(7, "a", 6, 200, NOW), NOW);
    assert_eq!(table.len(), 1);
}

#[test]
fn table_size_stays_bounded() {
    let mut table = ProbeTable::new();
    for i in 0..100usize {
        let lat = 1000 - (i as u64) * 7;
        table.add_result(create_test_probe(i, &format!("b-{}", i), 10, lat, NOW), NOW);
        assert!(table.len() <= PROBE_TABLE_SIZE);
    }
    assert_eq!(table.len(), PROBE_TABLE_SIZE);
}

#[test]
fn display_results_lists_samples() {
    let mut table = ProbeTable::new();
    table.add_result(create_test_probe(0, "shown", 10, 100, NOW), NOW);
    let text = table.display_results(NOW + 2000).unwrap();
    assert!(text.contains("shown"));
    assert!(text.contains("in_flight=10"));
    assert!(text.contains("age=2"));
}

#[test]
fn display_results_lists_every_sample_in_order() {
    let mut table = ProbeTable::new();
    table.add_result(create_test_probe(1, "first", 3, 30, NOW), NOW);
    table.add_result(create_test_probe(2, "second", 4, 40, NOW), NOW);
    let text = table.display_results(NOW).unwrap();
    let first = text.find("backend=first").expect("first sample missing");
    let second = text.find("backend=second").expect("second sample missing");
    assert!(first < second);
    assert!(text.contains("probe[0]"));
    assert!(text.contains("probe[1]"));
    assert_eq!(text.lines().count(), 2);
}

#[test]
fn increment_used_counts() {
    let mut p = create_test_probe(0, "t", 1, 1, NOW);
    assert!(!p.is_over_used());
    assert_eq!(p.increment_used(), 1);
    assert_eq!(p.increment_used(), 2);
    assert_eq!(p.increment_used(), 3);
    assert!(p.is_over_used());
}
