use prequal::balancer::{
    Balancer, LoadBalancer, PrequalBalancerConfig, RoundRobinBalancer, balancer_names,
    create_balancer, create_balancer_for_strategy, create_prequal_balancer,
};
use prequal::metrics::Metrics;
use prequal::scenario::Scenario;
use prequal::sim_backend::{BackendError, BackendPool, SimulatedBackend};

const NOW: u64 = 1_000_000;

#[test]
fn uniform_pool_layout() {
    let pool = BackendPool::uniform(4, 20, 50);
    assert_eq!(pool.len(), 4);
    for i in 0..4 {
        let b = pool.get(i).unwrap();
        assert_eq!(b.id, i);
        assert_eq!(b.base_latency_ms, 20);
        assert_eq!(b.latency_per_rif_ms, 2);
        assert_eq!(b.capacity, 50);
        assert_eq!(b.current_rif, 0);
    }
    assert!(pool.get(4).is_none());
}

#[test]
fn simulated_backend_latency_formula() {
    let mut b = SimulatedBackend::new(0, 100, 2, 50);
    assert_eq!(b.get_estimated_latency(), 100);
    b.current_rif = 10;
    assert_eq!(b.get_estimated_latency(), 120);
    b.set_antagonist_load(50);
    assert_eq!(b.get_estimated_latency(), 170);
    b.set_antagonist_load(1000);
    assert_eq!(b.antagonist_load, 100);
    assert_eq!(b.get_estimated_latency(), 220);
}

#[test]
fn simulated_backend_sheds_load_at_capacity() {
    let mut b = SimulatedBackend::new(0, 10, 2, 2);
    assert_eq!(b.begin_request(), Ok(10));
    assert_eq!(b.begin_request(), Ok(12));
    assert_eq!(b.begin_request(), Err(BackendError::Overloaded));
    b.end_request();
    assert_eq!(b.current_rif, 1);
    assert_eq!(b.begin_request(), Ok(12));
}

#[test]
fn round_robin_cycles() {
    let pool = BackendPool::uniform(3, 10, 50);
    let mut b = RoundRobinBalancer::new();
    let picks: Vec<usize> = (0..6).map(|_| b.select(&pool, NOW).unwrap().id).collect();
    assert_eq!(picks, vec![0, 1, 2, 0, 1, 2]);
}

#[test]
fn least_connections_picks_min_rif() {
    let mut pool = BackendPool::uniform(3, 10, 50);
    pool.backends[0].current_rif = 5;
    pool.backends[1].current_rif = 1;
    pool.backends[2].current_rif = 9;
    let mut b = create_balancer("least-conn");
    assert_eq!(b.select(&pool, NOW).unwrap().id, 1);
}

#[test]
fn lowest_latency_picks_min_latency() {
    let mut pool = BackendPool::uniform(3, 10, 50);
    pool.backends[0].base_latency_ms = 50;
    pool.backends[1].base_latency_ms = 90;
    pool.backends[2].base_latency_ms = 5;
    let mut b = create_balancer("lowest-latency");
    assert_eq!(b.select(&pool, NOW).unwrap().id, 2);
}

#[test]
fn balancers_return_pool_members() {
    let pool = BackendPool::uniform(5, 10, 50);
    for name in balancer_names() {
        let mut b = create_balancer(name);
        let chosen = b.select(&pool, NOW).unwrap();
        assert!(chosen.id < 5, "{} returned a stranger", name);
    }
}

#[test]
fn balancers_return_none_on_empty_pool() {
    let pool = BackendPool::uniform(0, 10, 50);
    for name in balancer_names() {
        let mut b = create_balancer(name);
        assert!(b.select(&pool, NOW).is_none());
    }
    let mut p = create_prequal_balancer(PrequalBalancerConfig::default());
    assert!(p.select(&pool, NOW).is_none());
}

#[test]
fn unknown_balancer_name_gets_random() {
    let pool = BackendPool::uniform(1, 10, 50);
    let mut b = create_balancer("no-such-strategy");
    assert!(matches!(b, Balancer::Random(_)));
    assert_eq!(b.select(&pool, NOW).unwrap().id, 0);
}

#[test]
fn random_single_backend_always_chosen() {
    let pool = BackendPool::uniform(1, 10, 50);
    let mut b = create_balancer("random");
    for _ in 0..10 {
        assert_eq!(b.select(&pool, NOW).unwrap().id, 0);
    }
}

#[test]
fn prequal_balancer_prefers_fast_cold_backend() {
    // All backends idle, so every sample is cold; the one with the
    // least base latency wins.
    let mut pool = BackendPool::uniform(3, 10, 50);
    pool.backends[0].base_latency_ms = 100;
    pool.backends[1].base_latency_ms = 5;
    pool.backends[2].base_latency_ms = 60;
    let mut b = create_prequal_balancer(PrequalBalancerConfig {
        probe_table_size: 16,
        probes_per_request: 3,
    });
    let chosen = b.select(&pool, NOW).unwrap();
    assert_eq!(chosen.id, 1);
}

#[test]
fn strategy_factory_builds_prequal() {
    let b = create_balancer_for_strategy("prequal", 8, 2);
    assert!(matches!(b, Balancer::Prequal(_)));
    let b2 = create_balancer_for_strategy("round-robin", 8, 2);
    assert!(matches!(b2, Balancer::RoundRobin(_)));
}

#[test]
fn metrics_counts_and_summaries() {
    let mut m = Metrics::new("prequal", "steady-state");
    assert_eq!(m.strategy, "prequal");
    assert_eq!(m.scenario, "steady-state");
    m.record_success(300);
    m.record_success(100);
    m.record_success(200);
    m.record_failure();
    assert_eq!(m.total(), 4);
    assert_eq!(m.successes(), 3);
    assert_eq!(m.failures(), 1);
    assert_eq!(m.sorted_latencies(), vec![100, 200, 300]);
    assert_eq!(m.p50(), 200);
    assert_eq!(m.p90(), 300);
    assert_eq!(m.p99(), 300);
    assert_eq!(m.p999(), 300);
    assert_eq!(m.mean(), 200);
    assert_eq!(m.max(), 300);
}

#[test]
fn metrics_empty_summaries_are_zero() {
    let m = Metrics::new("random", "bursty");
    assert_eq!(m.total(), 0);
    assert_eq!(m.p50(), 0);
    assert_eq!(m.mean(), 0);
    assert_eq!(m.max(), 0);
}

#[test]
fn metrics_single_value() {
    let mut m = Metrics::new("random", "bursty");
    m.record_success(42);
    assert_eq!(m.p50(), 42);
    assert_eq!(m.p999(), 42);
    assert_eq!(m.mean(), 42);
    assert_eq!(m.max(), 42);
}

#[test]
fn scenario_names_round_trip() {
    for s in Scenario::all() {
        assert_eq!(Scenario::from_name(s.name()), Some(s));
    }
    assert_eq!(Scenario::from_name("no-such-scenario"), None);
}

#[test]
fn scenario_all_lists_nine() {
    let all = Scenario::all();
    assert_eq!(all.len(), 9);
    assert_eq!(all[0], Scenario::SteadyState);
    assert_eq!(all[8], Scenario::WaveLoad);
}

#[test]
fn scenario_flags() {
    assert!(Scenario::HeterogeneousBackends.is_heterogeneous());
    assert!(Scenario::Realistic.is_heterogeneous());
    assert!(!Scenario::SteadyState.is_heterogeneous());
    assert!(Scenario::Bursty.is_bursty());
    assert!(Scenario::Realistic.is_bursty());
    assert!(!Scenario::Overload.is_bursty());
}
