use prequal::backend::{Backend, Endpoint};
use prequal::director::{plan_probe_count, Director, DirectorError, ProbeOutcome};
use prequal::probe::{ProbeResult, MAX_PROBE_AGE_MS};

const NOW: u64 = 1_000_000;

fn create_test_backend(name: &str, address: Endpoint, handle: u64) -> Backend {
    Backend::new(name.to_string(), address, handle)
}

#[test]
fn director_test_director_add_remove_backend() {
    let mut director = Director::new();

    let backend = create_test_backend("test1", Endpoint::new(127, 0, 0, 1, 8080), 1);
    let backend1_handle = backend.handle;
    let backend2 = create_test_backend("test2", Endpoint::new(127, 0, 0, 2, 8081), 2);

    // Add backend and verify
    director.add_backend(backend).unwrap();
    assert_eq!(director.backend_count(), 1);

    // Verify the backend name
    assert_eq!(director.backend_at(0).name, "test1");

    // Add another backend
    director.add_backend(backend2).unwrap();
    assert_eq!(director.backend_count(), 2);

    // Remove the first backend
    director.remove_backend(backend1_handle);
    assert_eq!(director.backend_count(), 1);

    // Verify the remaining backend
    assert_eq!(director.backend_at(0).name, "test2");
    assert_eq!(director.backend_at(0).address, Endpoint::new(127, 0, 0, 2, 8081));
}

#[test]
fn lib_test_director_add_remove_backend() {
    let mut director = Director::new();

    let backend = create_test_backend("test1", Endpoint::new(127, 0, 0, 1, 8080), 1);
    let backend2 = create_test_backend("test2", Endpoint::new(127, 0, 0, 2, 8081), 2);

    director.add_backend(backend).unwrap();
    assert_eq!(director.backend_count(), 1);
    assert_eq!(director.backend_at(0).name, "test1");

    director.add_backend(backend2).unwrap();
    assert_eq!(director.backend_count(), 2);

    director.remove_backend(1);
    assert_eq!(director.backend_count(), 1);

    assert_eq!(director.backend_at(0).name, "test2");
    assert_eq!(director.backend_at(0).address, Endpoint::new(127, 0, 0, 2, 8081));
}

#[test]
fn test_director_get_backend() {
    let mut director = Director::new();
    let backend = create_test_backend("test1", Endpoint::new(127, 0, 0, 1, 8080), 1);
    director.add_backend(backend).unwrap();
    let (chosen, _from_table) = director.get_backend(NOW).unwrap();
    assert_eq!(chosen.name, "test1");
}

#[test]
fn get_backend_fails_without_backends() {
    let mut director = Director::new();
    let r = director.get_backend(NOW);
    assert!(matches!(r, Err(DirectorError::NoBackends)));
    assert_eq!(director.stats().req, 1);
}

#[test]
fn basic_select_is_uniform_fallback() {
    // Two backends, no probes collected: every selection comes from
    // the random fallback, each backend close to half the time.
    let mut director = Director::new();
    director
        .add_backend(create_test_backend("a", Endpoint::new(1, 1, 1, 1, 80), 1))
        .unwrap();
    director
        .add_backend(create_test_backend("b", Endpoint::new(2, 2, 2, 2, 80), 2))
        .unwrap();

    let rounds = 10_000u64;
    let mut count_a = 0u64;
    for _ in 0..rounds {
        let (chosen, from_table) = director.get_backend(NOW).unwrap();
        assert!(!from_table);
        if chosen.handle == 1 {
            count_a += 1;
        } else {
            assert_eq!(chosen.handle, 2);
        }
    }
    assert!(count_a >= rounds * 45 / 100, "a chosen {} of {}", count_a, rounds);
    assert!(count_a <= rounds * 55 / 100, "a chosen {} of {}", count_a, rounds);
    assert_eq!(director.stats().req, rounds);
    assert_eq!(director.stats().fallback_random, rounds);
    assert_eq!(director.stats().selected_from_table, 0);
}

#[test]
fn used_count_expiry_falls_back() {
    // One sample may feed three selections; the fourth falls back.
    let mut director = Director::new();
    let backend = create_test_backend("a", Endpoint::new(1, 1, 1, 1, 80), 1);
    director.add_backend(backend.clone()).unwrap();
    director.add_probe_result(ProbeResult::new(NOW, 1, 1, backend), NOW);

    for _ in 0..3 {
        let (chosen, from_table) = director.get_backend(NOW).unwrap();
        assert_eq!(chosen.handle, 1);
        assert!(from_table);
    }
    let (chosen, from_table) = director.get_backend(NOW).unwrap();
    assert_eq!(chosen.handle, 1);
    assert!(!from_table);
}

#[test]
fn stale_sample_falls_back() {
    let mut director = Director::new();
    let backend = create_test_backend("a", Endpoint::new(1, 1, 1, 1, 80), 1);
    director.add_backend(backend.clone()).unwrap();
    director.add_probe_result(ProbeResult::new(NOW, 1, 1, backend), NOW);

    let later = NOW + MAX_PROBE_AGE_MS + 1000;
    let (chosen, from_table) = director.get_backend(later).unwrap();
    assert_eq!(chosen.handle, 1);
    assert!(!from_table);
}

#[test]
fn remove_backend_purges_samples() {
    let mut director = Director::new();
    let backend = create_test_backend("a", Endpoint::new(1, 1, 1, 1, 80), 1);
    director.add_backend(backend.clone()).unwrap();
    director.add_probe_result(ProbeResult::new(NOW, 1, 1, backend), NOW);
    assert!(director.is_healthy());

    director.remove_backend(1);
    assert!(!director.is_healthy());
    assert_eq!(director.backend_count(), 0);
}

#[test]
fn removed_backend_not_selected_until_readded() {
    let mut director = Director::new();
    let a = create_test_backend("a", Endpoint::new(1, 1, 1, 1, 80), 1);
    let b = create_test_backend("b", Endpoint::new(2, 2, 2, 2, 80), 2);
    director.add_backend(a.clone()).unwrap();
    director.add_backend(b).unwrap();
    director.add_probe_result(ProbeResult::new(NOW, 1, 1, a.clone()), NOW);

    director.remove_backend(1);
    for _ in 0..100 {
        let (chosen, _) = director.get_backend(NOW).unwrap();
        assert_ne!(chosen.handle, 1);
    }

    director.add_backend(a).unwrap();
    let mut seen_a = false;
    for _ in 0..1000 {
        let (chosen, _) = director.get_backend(NOW).unwrap();
        if chosen.handle == 1 {
            seen_a = true;
            break;
        }
    }
    assert!(seen_a);
}

#[test]
fn add_backend_replaces_same_handle() {
    let mut director = Director::new();
    director
        .add_backend(create_test_backend("old", Endpoint::new(1, 1, 1, 1, 80), 7))
        .unwrap();
    director
        .add_backend(create_test_backend("new", Endpoint::new(1, 1, 1, 1, 81), 7))
        .unwrap();
    assert_eq!(director.backend_count(), 1);
    assert_eq!(director.backend_at(0).name, "new");
}

#[test]
fn table_selection_verifies_membership() {
    // A sample for a backend that has left the set cannot decide the
    // selection; the fallback takes over.
    let mut director = Director::new();
    let a = create_test_backend("a", Endpoint::new(1, 1, 1, 1, 80), 1);
    let b = create_test_backend("b", Endpoint::new(2, 2, 2, 2, 80), 2);
    director.add_backend(b).unwrap();
    director.add_probe_result(ProbeResult::new(NOW, 1, 1, a), NOW);

    let (chosen, from_table) = director.get_backend(NOW).unwrap();
    assert_eq!(chosen.handle, 2);
    assert!(!from_table);
}

#[test]
fn probe_outcomes_are_counted() {
    let mut director = Director::new();
    director.record_probe_outcome(ProbeOutcome::Success);
    director.record_probe_outcome(ProbeOutcome::Success);
    director.record_probe_outcome(ProbeOutcome::MissingHeaders);
    director.record_probe_outcome(ProbeOutcome::Failed);
    let stats = director.stats();
    assert_eq!(stats.probes_sent, 4);
    assert_eq!(stats.probes_success, 2);
    assert_eq!(stats.probes_missing_headers, 1);
    assert_eq!(stats.probes_fail, 1);
}

#[test]
fn probe_path_configurable() {
    let mut director = Director::new();
    assert_eq!(director.probe_path(), "/probe");
    director.set_probe_path("/healthz");
    assert_eq!(director.probe_path(), "/healthz");
}

#[test]
fn probe_targets_are_distinct() {
    let mut director = Director::new();
    for h in 0..5u64 {
        director
            .add_backend(create_test_backend(
                &format!("b{}", h),
                Endpoint::new(10, 0, 0, h as u8, 80),
                h,
            ))
            .unwrap();
    }
    let targets = director.select_probe_targets(3);
    assert_eq!(targets.len(), 3);
    for i in 0..targets.len() {
        assert!(targets[i] < 5);
        for j in 0..i {
            assert_ne!(targets[i], targets[j]);
        }
    }
    let all = director.select_probe_targets(99);
    assert_eq!(all.len(), 5);
}

#[test]
fn probe_plan_counts() {
    assert_eq!(plan_probe_count(true, false), 3);
    assert_eq!(plan_probe_count(true, true), 3);
    assert_eq!(plan_probe_count(false, false), 8);
    assert_eq!(plan_probe_count(false, true), 0);
}

#[test]
fn gauges_reflect_state() {
    let mut director = Director::new();
    assert_eq!(director.gauges().backends, 0);
    assert_eq!(director.gauges().rif_max, 0);

    let a = create_test_backend("a", Endpoint::new(1, 1, 1, 1, 80), 1);
    let b = create_test_backend("b", Endpoint::new(2, 2, 2, 2, 80), 2);
    director.add_backend(a.clone()).unwrap();
    director.add_backend(b.clone()).unwrap();
    director.add_probe_result(ProbeResult::new(NOW, 4, 40, a), NOW);
    director.add_probe_result(ProbeResult::new(NOW, 10, 20, b), NOW);

    director.refresh_gauges();
    let g = director.gauges();
    assert_eq!(g.backends, 2);
    assert_eq!(g.probe_table_size, 2);
    assert_eq!(g.rif_min, 4);
    assert_eq!(g.rif_p50, 10);
    assert_eq!(g.rif_p80, 10);
    assert_eq!(g.rif_max, 10);
    assert_eq!(g.latency_min, 20);
    assert_eq!(g.latency_p50, 40);
    assert_eq!(g.latency_p80, 40);
    assert_eq!(g.latency_max, 40);
}

#[test]
fn debug_probe_table_renders() {
    let mut director = Director::new();
    let a = create_test_backend("a", Endpoint::new(1, 1, 1, 1, 80), 1);
    director.add_backend(a.clone()).unwrap();
    director.add_probe_result(ProbeResult::new(NOW, 5, 9, a), NOW);
    let text = director.debug_probe_table(NOW).unwrap();
    assert!(text.contains("in_flight=5"));
}
