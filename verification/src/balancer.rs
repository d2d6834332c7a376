//! Load-balancing strategies over a pool of simulated backends, from a
//! uniform random baseline up to the Prequal probe-table strategy.

use vstd::prelude::*;
use vstd::string::StringExecFns;

use crate::backend::{Backend, Endpoint};
use crate::probe::{
    ProbeResult, ProbeTable, admitted_seq, hcl_choice, hot_cold_threshold, lemma_admitted_seq_snoc,
    live_fn, max_rif_of, with_use,
};
use crate::rng;
use crate::sim_backend::{BackendPool, SimulatedBackend};

verus! {

/// How long a simulated probe sample stays fresh, in milliseconds.
pub const SIM_MAX_PROBE_AGE_MS: u64 = 500;

/// A strategy that picks a backend for each request.
pub trait LoadBalancer {
    /// Choose a backend for the next request, given the pool and the
    /// monotonic time in milliseconds: some backend of the pool exactly
    /// when the pool is non-empty.
    fn select(&mut self, pool: &BackendPool, now_ms: u64) -> (r: Option<SimulatedBackend>)
        requires
            pool.wf(),
        ensures
            r is Some <==> pool.backends@.len() > 0,
            r matches Some(b) ==> exists|i: int|
                0 <= i < pool.backends@.len() && b == #[trigger] pool.backends@[i],
    ;
}

/// Uniform random selection, the baseline.
#[derive(Debug, Clone, Copy, PartialEq, Eq, Structural)]
pub struct RandomBalancer;

impl LoadBalancer for RandomBalancer {
    fn select(&mut self, pool: &BackendPool, now_ms: u64) -> (r: Option<SimulatedBackend>) {
        if pool.backends.len() == 0 {
            return None;
        }
        let i = rng::rand_below(pool.backends.len());
        let b = pool.backends[i];
        proof {
            assert(b == pool.backends@[i as int]);
        }
        Some(b)
    }
}

/// Round-robin selection.
#[derive(Debug, Clone, Copy, PartialEq, Eq, Structural)]
pub struct RoundRobinBalancer {
    /// Position of the next pick.
    pub next: usize,
}

impl RoundRobinBalancer {
    pub fn new() -> (r: RoundRobinBalancer)
        ensures
            r.next == 0,
    {
        RoundRobinBalancer { next: 0 }
    }
}

impl LoadBalancer for RoundRobinBalancer {
    fn select(&mut self, pool: &BackendPool, now_ms: u64) -> (r: Option<SimulatedBackend>)
        ensures
            pool.backends@.len() == 0 ==> final(self).next == old(self).next,
            pool.backends@.len() > 0 ==> r == Some(
                pool.backends@[(old(self).next as int) % (pool.backends@.len() as int)],
            ) && final(self).next == (if old(self).next == usize::MAX {
                0
            } else {
                (old(self).next + 1) as usize
            }),
    {
        if pool.backends.len() == 0 {
            return None;
        }
        let idx = self.next % pool.backends.len();
        self.next = if self.next == usize::MAX {
            0
        } else {
            self.next + 1
        };
        let b = pool.backends[idx];
        proof {
            assert(b == pool.backends@[idx as int]);
        }
        Some(b)
    }
}

/// Pick the backend with the fewest requests in flight.
#[derive(Debug, Clone, Copy, PartialEq, Eq, Structural)]
pub struct LeastConnectionsBalancer;

impl LoadBalancer for LeastConnectionsBalancer {
    fn select(&mut self, pool: &BackendPool, now_ms: u64) -> (r: Option<SimulatedBackend>)
        ensures
            pool.backends@.len() > 0 ==> (r matches Some(b) && exists|i: int|
                {
                    &&& 0 <= i < pool.backends@.len()
                    &&& b == #[trigger] pool.backends@[i]
                    &&& forall|j: int|
                        0 <= j < pool.backends@.len() ==> b.current_rif <= (
                        #[trigger] pool.backends@[j]).current_rif
                }),
    {
        if pool.backends.len() == 0 {
            return None;
        }
        let i = argmin_rif(&pool.backends);
        let b = pool.backends[i];
        proof {
            assert(b == pool.backends@[i as int]);
        }
        Some(b)
    }
}

/// Pick the backend with the least estimated latency.
#[derive(Debug, Clone, Copy, PartialEq, Eq, Structural)]
pub struct LowestLatencyBalancer;

impl LoadBalancer for LowestLatencyBalancer {
    fn select(&mut self, pool: &BackendPool, now_ms: u64) -> (r: Option<SimulatedBackend>)
        ensures
            pool.backends@.len() > 0 ==> (r matches Some(b) && exists|i: int|
                {
                    &&& 0 <= i < pool.backends@.len()
                    &&& b == #[trigger] pool.backends@[i]
                    &&& forall|j: int|
                        0 <= j < pool.backends@.len() ==> b.est_latency_spec() <= (
                        #[trigger] pool.backends@[j]).est_latency_spec()
                }),
    {
        if pool.backends.len() == 0 {
            return None;
        }
        let i = argmin_latency(&pool.backends);
        let b = pool.backends[i];
        proof {
            assert(b == pool.backends@[i as int]);
        }
        Some(b)
    }
}

/// Sample two random backends, keep the one with fewer requests in
/// flight.
#[derive(Debug, Clone, Copy, PartialEq, Eq, Structural)]
pub struct PowerOfTwoBalancer;

impl LoadBalancer for PowerOfTwoBalancer {
    fn select(&mut self, pool: &BackendPool, now_ms: u64) -> (r: Option<SimulatedBackend>)
        ensures
            pool.backends@.len() == 1 ==> r == Some(pool.backends@[0]),
            pool.backends@.len() >= 2 ==> (r matches Some(b) && exists|i: int, j: int|
                {
                    &&& 0 <= i < pool.backends@.len()
                    &&& 0 <= j < pool.backends@.len()
                    &&& i != j
                    &&& b == #[trigger] pool.backends@[i]
                    &&& b.current_rif <= (#[trigger] pool.backends@[j]).current_rif
                }),
    {
        let n = pool.backends.len();
        if n == 0 {
            return None;
        }
        if n == 1 {
            let b = pool.backends[0];
            proof {
                assert(b == pool.backends@[0]);
            }
            return Some(b);
        }
        let idxs = rng::sample_indices(n, 2);
        let a = pool.backends[idxs[0]];
        let c = pool.backends[idxs[1]];
        let b = if a.current_rif <= c.current_rif {
            a
        } else {
            c
        };
        proof {
            let i0 = idxs@[0] as int;
            let i1 = idxs@[1] as int;
            if a.current_rif <= c.current_rif {
                assert(b == pool.backends@[i0] && b.current_rif
                    <= pool.backends@[i1].current_rif);
            } else {
                assert(b == pool.backends@[i1] && b.current_rif
                    <= pool.backends@[i0].current_rif);
            }
        }
        Some(b)
    }
}

/// Sample `d` random backends, keep the one with fewest requests in
/// flight.
#[derive(Debug, Clone, Copy, PartialEq, Eq, Structural)]
pub struct PowerOfDRifBalancer {
    pub d: usize,
}

impl LoadBalancer for PowerOfDRifBalancer {
    fn select(&mut self, pool: &BackendPool, now_ms: u64) -> (r: Option<SimulatedBackend>)
        ensures
            pool.backends@.len() > 0 && old(self).d > 0 ==> (r matches Some(b) && exists|
                idxs: Seq<usize>,
                m: int,
            |
                {
                    &&& idxs.len() == (if old(self).d <= pool.backends@.len() {
                        old(self).d as int
                    } else {
                        pool.backends@.len() as int
                    })
                    &&& forall|q: int| 0 <= q < idxs.len() ==> (#[trigger] idxs[q]) < pool.backends@.len()
                    &&& forall|q1: int, q2: int| 0 <= q1 < q2 < idxs.len() ==> idxs[q1] != idxs[q2]
                    &&& 0 <= m < idxs.len()
                    &&& b == pool.backends@[idxs[m] as int]
                    &&& forall|q: int|
                        0 <= q < idxs.len() ==> b.current_rif <= (#[trigger] pool.backends@[idxs[q] as int]).current_rif
                }),
    {
        let n = pool.backends.len();
        if n == 0 {
            return None;
        }
        let amount = if self.d <= n {
            self.d
        } else {
            n
        };
        if amount == 0 {
            let i = rng::rand_below(n);
            let b = pool.backends[i];
            proof {
                assert(b == pool.backends@[i as int]);
                assert(Seq::<usize>::empty().len() == 0);
            }
            return Some(b);
        }
        let idxs = rng::sample_indices(n, amount);
        let m = argmin_rif_indices(&pool.backends, &idxs);
        let b = pool.backends[idxs[m]];
        proof {
            assert(b == pool.backends@[idxs@[m as int] as int]);
        }
        Some(b)
    }
}

/// Sample `d` random backends, keep the one with least estimated
/// latency.
#[derive(Debug, Clone, Copy, PartialEq, Eq, Structural)]
pub struct PowerOfDLatencyBalancer {
    pub d: usize,
}

impl LoadBalancer for PowerOfDLatencyBalancer {
    fn select(&mut self, pool: &BackendPool, now_ms: u64) -> (r: Option<SimulatedBackend>)
        ensures
            pool.backends@.len() > 0 && old(self).d > 0 ==> (r matches Some(b) && exists|
                idxs: Seq<usize>,
                m: int,
            |
                {
                    &&& idxs.len() == (if old(self).d <= pool.backends@.len() {
                        old(self).d as int
                    } else {
                        pool.backends@.len() as int
                    })
                    &&& forall|q: int| 0 <= q < idxs.len() ==> (#[trigger] idxs[q]) < pool.backends@.len()
                    &&& forall|q1: int, q2: int| 0 <= q1 < q2 < idxs.len() ==> idxs[q1] != idxs[q2]
                    &&& 0 <= m < idxs.len()
                    &&& b == pool.backends@[idxs[m] as int]
                    &&& forall|q: int|
                        0 <= q < idxs.len() ==> b.est_latency_spec() <= (#[trigger] pool.backends@[idxs[q] as int]).est_latency_spec()
                }),
    {
        let n = pool.backends.len();
        if n == 0 {
            return None;
        }
        let amount = if self.d <= n {
            self.d
        } else {
            n
        };
        if amount == 0 {
            let i = rng::rand_below(n);
            let b = pool.backends[i];
            proof {
                assert(b == pool.backends@[i as int]);
            }
            return Some(b);
        }
        let idxs = rng::sample_indices(n, amount);
        let m = argmin_latency_indices(&pool.backends, &idxs);
        let b = pool.backends[idxs[m]];
        proof {
            assert(b == pool.backends@[idxs@[m as int] as int]);
        }
        Some(b)
    }
}

/// The Prequal strategy over simulated backends: probe a few random
/// backends per request, keep the samples in a bounded probe table,
/// and select by the hot/cold-lexicographic rule, falling back to a
/// random pick when the table yields nothing usable.
#[derive(Debug)]
pub struct PrequalBalancer {
    probe_table: ProbeTable,
    probes_per_request: usize,
}

impl PrequalBalancer {
    #[verifier::type_invariant]
    spec fn type_inv(&self) -> bool {
        &&& self.probe_table.wf()
        &&& self.probe_table.max_age_spec() == SIM_MAX_PROBE_AGE_MS
    }

    /// The probe table's capacity.
    pub closed spec fn capacity_spec(&self) -> usize {
        self.probe_table.capacity_spec()
    }

    /// How many backends each request's probe round samples.
    pub closed spec fn probes_per_request_spec(&self) -> usize {
        self.probes_per_request
    }

    /// The samples the probe table currently holds.
    pub closed spec fn table_view(&self) -> Seq<ProbeResult> {
        self.probe_table@
    }

    pub fn new(probe_table_size: usize, probes_per_request: usize) -> (r: PrequalBalancer)
        ensures
            r.capacity_spec() == probe_table_size,
            r.probes_per_request_spec() == probes_per_request,
            r.table_view() =~= Seq::<ProbeResult>::empty(),
    {
        PrequalBalancer {
            probe_table: ProbeTable::with_config(probe_table_size, SIM_MAX_PROBE_AGE_MS),
            probes_per_request,
        }
    }

}

/// The sample one probe of a simulated backend yields: taken now,
/// unused, carrying the backend's current RIF and latency estimate,
/// and keyed by the backend's pool index.
pub open spec fn probe_of(p: ProbeResult, b: SimulatedBackend, idx: usize, now: u64) -> bool {
    &&& p.timestamp == now
    &&& p.rif == b.current_rif as u64
    &&& p.est_latency == b.est_latency_spec()
    &&& p.used_count == 0
    &&& p.backend.handle == idx as u64
}

/// One probe round over a pool by the named draw `idxs`: the drawn
/// indices are distinct, in range, and of the asked-for size; each
/// drawn backend yielded its sample; and the samples were admitted
/// into the table first to last.
pub open spec fn probe_round_of(
    t0: Seq<ProbeResult>,
    backends: Seq<SimulatedBackend>,
    probes_per_request: usize,
    now: u64,
    max_age_ms: u64,
    cap: usize,
    t1: Seq<ProbeResult>,
    idxs: Seq<usize>,
    samples: Seq<ProbeResult>,
) -> bool {
    &&& idxs.len() == (if probes_per_request <= backends.len() {
        probes_per_request as int
    } else {
        backends.len() as int
    })
    &&& (forall|q: int| 0 <= q < idxs.len() ==> (#[trigger] idxs[q]) < backends.len())
    &&& (forall|q1: int, q2: int| 0 <= q1 < q2 < idxs.len() ==> idxs[q1] != idxs[q2])
    &&& samples.len() == idxs.len()
    &&& (forall|k: int|
        0 <= k < idxs.len() ==> probe_of(#[trigger] samples[k], backends[idxs[k] as int], idxs[k], now))
    &&& admitted_seq(t0, samples, now, max_age_ms, cap, t1)
}

/// One probe round over a pool, with the draw left unnamed: what a
/// round of `probe_into_table` does to the table, for every way the
/// random subset can come out.
pub open spec fn probe_round(
    t0: Seq<ProbeResult>,
    backends: Seq<SimulatedBackend>,
    probes_per_request: usize,
    now: u64,
    max_age_ms: u64,
    cap: usize,
    t1: Seq<ProbeResult>,
) -> bool {
    exists|idxs: Seq<usize>, samples: Seq<ProbeResult>|
        #[trigger] probe_round_of(
            t0,
            backends,
            probes_per_request,
            now,
            max_age_ms,
            cap,
            t1,
            idxs,
            samples,
        )
}

/// Probe a random subset of the pool and feed the observations into
/// the probe table, keyed by pool index.
#[verifier::loop_isolation(false)]
fn probe_into_table(table: &mut ProbeTable, probes_per_request: usize, pool: &BackendPool, now: u64)
    requires
        pool.wf(),
        old(table).wf(),
    ensures
        final(table).wf(),
        final(table).capacity_spec() == old(table).capacity_spec(),
        final(table).max_age_spec() == old(table).max_age_spec(),
        probe_round(
            old(table)@,
            pool.backends@,
            probes_per_request,
            now,
            old(table).max_age_spec(),
            old(table).capacity_spec(),
            final(table)@,
        ),
{
    let n = pool.backends.len();
    let amount = if probes_per_request <= n {
        probes_per_request
    } else {
        n
    };
    let idxs = rng::sample_indices(n, amount);
    let ghost t0 = table@;
    let ghost age = table.max_age_spec();
    let ghost cap = table.capacity_spec();
    let ghost mut samples: Seq<ProbeResult> = Seq::empty();
    let mut k: usize = 0;
    while k < idxs.len()
        invariant
            k <= idxs@.len(),
            forall|q: int| 0 <= q < idxs@.len() ==> (#[trigger] idxs@[q]) < n,
            table.wf(),
            table.capacity_spec() == cap,
            table.max_age_spec() == age,
            samples.len() == k,
            forall|q: int|
                0 <= q < k ==> probe_of(
                    #[trigger] samples[q],
                    pool.backends@[idxs@[q] as int],
                    idxs@[q],
                    now,
                ),
            admitted_seq(t0, samples, now, age, cap, table@),
        decreases idxs@.len() - k,
    {
        let ghost mid = table@;
        let idx = idxs[k];
        let backend = &pool.backends[idx];
        let rif = backend.get_rif() as u64;
        let lat = backend.get_estimated_latency();
        let identity = Backend::new(String::new(), Endpoint::new(0, 0, 0, 0, 0), idx as u64);
        let sample = ProbeResult::new(now, rif, lat, identity);
        let ghost sv = sample;
        table.add_result(sample, now);
        proof {
            assert(probe_of(sv, pool.backends@[idx as int], idx, now));
            lemma_admitted_seq_snoc(t0, samples, sv, now, age, cap, mid, table@);
            samples = samples.push(sv);
        }
        k = k + 1;
    }
    proof {
        assert(probe_round_of(
            t0,
            pool.backends@,
            probes_per_request,
            now,
            age,
            cap,
            table@,
            idxs@,
            samples,
        ));
    }
}

impl LoadBalancer for PrequalBalancer {
    fn select(&mut self, pool: &BackendPool, now_ms: u64) -> (r: Option<SimulatedBackend>)
        ensures
            final(self).capacity_spec() == old(self).capacity_spec(),
            final(self).probes_per_request_spec() == old(self).probes_per_request_spec(),
            exists|t1: Seq<ProbeResult>|
                {
                    &&& #[trigger] probe_round(
                        old(self).table_view(),
                        pool.backends@,
                        old(self).probes_per_request_spec(),
                        now_ms,
                        SIM_MAX_PROBE_AGE_MS,
                        old(self).capacity_spec(),
                        t1,
                    )
                    &&& ({
                        let pruned = t1.filter(live_fn(now_ms, SIM_MAX_PROBE_AGE_MS));
                        if pruned.len() == 0 {
                            final(self).table_view() == pruned
                        } else {
                            exists|i: int|
                                {
                                    &&& #[trigger] hcl_choice(
                                        pruned,
                                        hot_cold_threshold(max_rif_of(pruned)),
                                        i,
                                    )
                                    &&& final(self).table_view() == pruned.update(
                                        i,
                                        with_use(pruned[i]),
                                    )
                                    &&& (pruned[i].backend.handle < pool.backends@.len()
                                        ==> r == Some(
                                        pool.backends@[pruned[i].backend.handle as int],
                                    ))
                                }
                        }
                    })
                },
    {
        proof {
            use_type_invariant(&*self);
        }
        let mut table = ProbeTable::with_config(0, SIM_MAX_PROBE_AGE_MS);
        core::mem::swap(&mut self.probe_table, &mut table);
        probe_into_table(&mut table, self.probes_per_request, pool, now_ms);
        let ghost t1 = table@;
        let best = table.find_best(now_ms);
        core::mem::swap(&mut self.probe_table, &mut table);
        proof {
            assert(probe_round(
                old(self).table_view(),
                pool.backends@,
                old(self).probes_per_request_spec(),
                now_ms,
                SIM_MAX_PROBE_AGE_MS,
                old(self).capacity_spec(),
                t1,
            ));
        }
        match best {
            Some(b) => {
                if b.handle < pool.backends.len() as u64 {
                    let id = b.handle as usize;
                    let chosen = pool.backends[id];
                    proof {
                        assert(chosen == pool.backends@[id as int]);
                    }
                    return Some(chosen);
                }
            },
            None => {},
        }
        if pool.backends.len() == 0 {
            return None;
        }
        let i = rng::rand_below(pool.backends.len());
        let b = pool.backends[i];
        proof {
            assert(b == pool.backends@[i as int]);
        }
        Some(b)
    }
}

/// Build-time parameters of a [`PrequalBalancer`].
#[derive(Debug, Clone, Copy, PartialEq, Eq, Structural)]
pub struct PrequalBalancerConfig {
    pub probe_table_size: usize,
    pub probes_per_request: usize,
}

impl Default for PrequalBalancerConfig {
    fn default() -> (r: PrequalBalancerConfig)
        ensures
            r == (PrequalBalancerConfig { probe_table_size: 16, probes_per_request: 3 }),
    {
        PrequalBalancerConfig { probe_table_size: 16, probes_per_request: 3 }
    }
}

/// Any of the balancing strategies, under one type.
#[derive(Debug)]
pub enum Balancer {
    Random(RandomBalancer),
    RoundRobin(RoundRobinBalancer),
    LeastConnections(LeastConnectionsBalancer),
    LowestLatency(LowestLatencyBalancer),
    PowerOfTwo(PowerOfTwoBalancer),
    PowerOfDRif(PowerOfDRifBalancer),
    PowerOfDLatency(PowerOfDLatencyBalancer),
    Prequal(PrequalBalancer),
}

impl LoadBalancer for Balancer {
    fn select(&mut self, pool: &BackendPool, now_ms: u64) -> (r: Option<SimulatedBackend>) {
        match self {
            Balancer::Random(b) => b.select(pool, now_ms),
            Balancer::RoundRobin(b) => b.select(pool, now_ms),
            Balancer::LeastConnections(b) => b.select(pool, now_ms),
            Balancer::LowestLatency(b) => b.select(pool, now_ms),
            Balancer::PowerOfTwo(b) => b.select(pool, now_ms),
            Balancer::PowerOfDRif(b) => b.select(pool, now_ms),
            Balancer::PowerOfDLatency(b) => b.select(pool, now_ms),
            Balancer::Prequal(b) => b.select(pool, now_ms),
        }
    }
}

/// The strategy each name denotes; an unknown name falls back to the
/// random baseline.
pub open spec fn spec_balancer_for(s: Seq<char>) -> Balancer {
    if s == "round-robin"@ {
        Balancer::RoundRobin(RoundRobinBalancer { next: 0 })
    } else if s == "least-conn"@ {
        Balancer::LeastConnections(LeastConnectionsBalancer)
    } else if s == "lowest-latency"@ {
        Balancer::LowestLatency(LowestLatencyBalancer)
    } else if s == "power-of-2"@ {
        Balancer::PowerOfTwo(PowerOfTwoBalancer)
    } else if s == "power-of-d-rif"@ {
        Balancer::PowerOfDRif(PowerOfDRifBalancer { d: 5 })
    } else if s == "power-of-d-latency"@ {
        Balancer::PowerOfDLatency(PowerOfDLatencyBalancer { d: 5 })
    } else {
        Balancer::Random(RandomBalancer)
    }
}

/// The balancer a strategy name denotes; an unknown name gets the
/// random baseline.
pub fn create_balancer(name: &str) -> (r: Balancer)
    ensures
        r == spec_balancer_for(name@),
{
    let n = name.to_owned();
    if n == String::from_str("round-robin") {
        Balancer::RoundRobin(RoundRobinBalancer::new())
    } else if n == String::from_str("least-conn") {
        Balancer::LeastConnections(LeastConnectionsBalancer)
    } else if n == String::from_str("lowest-latency") {
        Balancer::LowestLatency(LowestLatencyBalancer)
    } else if n == String::from_str("power-of-2") {
        Balancer::PowerOfTwo(PowerOfTwoBalancer)
    } else if n == String::from_str("power-of-d-rif") {
        Balancer::PowerOfDRif(PowerOfDRifBalancer { d: 5 })
    } else if n == String::from_str("power-of-d-latency") {
        Balancer::PowerOfDLatency(PowerOfDLatencyBalancer { d: 5 })
    } else {
        Balancer::Random(RandomBalancer)
    }
}

/// A Prequal balancer built from the given parameters.
pub fn create_prequal_balancer(config: PrequalBalancerConfig) -> (r: Balancer)
    ensures
        r matches Balancer::Prequal(p) && p.capacity_spec() == config.probe_table_size
            && p.probes_per_request_spec() == config.probes_per_request && p.table_view().len()
            == 0,
{
    Balancer::Prequal(PrequalBalancer::new(config.probe_table_size, config.probes_per_request))
}

/// The balancer a strategy name denotes, with "prequal" built from the
/// given table size and probe count.
pub fn create_balancer_for_strategy(
    name: &str,
    probe_table_size: usize,
    probes_per_request: usize,
) -> (r: Balancer)
    ensures
        name@ == "prequal"@ ==> (r matches Balancer::Prequal(p) && p.capacity_spec()
            == probe_table_size && p.probes_per_request_spec() == probes_per_request),
        name@ != "prequal"@ ==> r == spec_balancer_for(name@),
{
    let n = name.to_owned();
    if n == String::from_str("prequal") {
        create_prequal_balancer(
            PrequalBalancerConfig { probe_table_size, probes_per_request },
        )
    } else {
        create_balancer(name)
    }
}

/// Every built-in strategy name, in a fixed order.
pub fn balancer_names() -> (r: Vec<&'static str>)
    ensures
        r@.len() == 7,
        r@[0]@ == "random"@,
        r@[1]@ == "round-robin"@,
        r@[2]@ == "least-conn"@,
        r@[3]@ == "lowest-latency"@,
        r@[4]@ == "power-of-2"@,
        r@[5]@ == "power-of-d-rif"@,
        r@[6]@ == "power-of-d-latency"@,
{
    let mut v: Vec<&'static str> = Vec::new();
    v.push("random");
    v.push("round-robin");
    v.push("least-conn");
    v.push("lowest-latency");
    v.push("power-of-2");
    v.push("power-of-d-rif");
    v.push("power-of-d-latency");
    v
}

/// The index of the first backend with the fewest requests in flight.
#[verifier::loop_isolation(false)]
fn argmin_rif(v: &Vec<SimulatedBackend>) -> (r: usize)
    requires
        v@.len() > 0,
    ensures
        r < v@.len(),
        forall|j: int| 0 <= j < v@.len() ==> v@[r as int].current_rif <= (#[trigger] v@[j]).current_rif,
{
    let mut best: usize = 0;
    let mut i: usize = 1;
    while i < v.len()
        invariant
            1 <= i <= v@.len(),
            0 <= best < i,
            forall|j: int| 0 <= j < i ==> v@[best as int].current_rif <= (#[trigger] v@[j]).current_rif,
        decreases v@.len() - i,
    {
        if v[i].current_rif < v[best].current_rif {
            best = i;
        }
        i = i + 1;
    }
    best
}

/// The index of the first backend with the least estimated latency.
#[verifier::loop_isolation(false)]
fn argmin_latency(v: &Vec<SimulatedBackend>) -> (r: usize)
    requires
        v@.len() > 0,
        forall|j: int| 0 <= j < v@.len() ==> (#[trigger] v@[j]).wf(),
    ensures
        r < v@.len(),
        forall|j: int|
            0 <= j < v@.len() ==> v@[r as int].est_latency_spec() <= (
            #[trigger] v@[j]).est_latency_spec(),
{
    let mut best: usize = 0;
    let mut best_lat: u64 = v[0].get_estimated_latency();
    let mut i: usize = 1;
    while i < v.len()
        invariant
            1 <= i <= v@.len(),
            0 <= best < i,
            best_lat == v@[best as int].est_latency_spec(),
            forall|j: int|
                0 <= j < i ==> v@[best as int].est_latency_spec() <= (
                #[trigger] v@[j]).est_latency_spec(),
        decreases v@.len() - i,
    {
        let lat = v[i].get_estimated_latency();
        if lat < best_lat {
            best = i;
            best_lat = lat;
        }
        i = i + 1;
    }
    best
}

/// The position, within a list of pool indices, of the backend with
/// the fewest requests in flight.
#[verifier::loop_isolation(false)]
fn argmin_rif_indices(v: &Vec<SimulatedBackend>, idxs: &Vec<usize>) -> (r: usize)
    requires
        idxs@.len() > 0,
        forall|q: int| 0 <= q < idxs@.len() ==> (#[trigger] idxs@[q]) < v@.len(),
    ensures
        r < idxs@.len(),
        forall|q: int|
            0 <= q < idxs@.len() ==> v@[idxs@[r as int] as int].current_rif <= (#[trigger] v@[idxs@[q] as int]).current_rif,
{
    let mut best: usize = 0;
    let mut i: usize = 1;
    while i < idxs.len()
        invariant
            1 <= i <= idxs@.len(),
            0 <= best < i,
            forall|q: int|
                0 <= q < i ==> v@[idxs@[best as int] as int].current_rif <= (#[trigger] v@[idxs@[q] as int]).current_rif,
        decreases idxs@.len() - i,
    {
        if v[idxs[i]].current_rif < v[idxs[best]].current_rif {
            best = i;
        }
        i = i + 1;
    }
    best
}

/// The position, within a list of pool indices, of the backend with
/// the least estimated latency.
#[verifier::loop_isolation(false)]
fn argmin_latency_indices(v: &Vec<SimulatedBackend>, idxs: &Vec<usize>) -> (r: usize)
    requires
        idxs@.len() > 0,
        forall|q: int| 0 <= q < idxs@.len() ==> (#[trigger] idxs@[q]) < v@.len(),
        forall|j: int| 0 <= j < v@.len() ==> (#[trigger] v@[j]).wf(),
    ensures
        r < idxs@.len(),
        forall|q: int|
            0 <= q < idxs@.len() ==> v@[idxs@[r as int] as int].est_latency_spec() <= (#[trigger] v@[idxs@[q] as int]).est_latency_spec(),
{
    let mut best: usize = 0;
    let mut best_lat: u64 = v[idxs[0]].get_estimated_latency();
    let mut i: usize = 1;
    while i < idxs.len()
        invariant
            1 <= i <= idxs@.len(),
            0 <= best < i,
            best_lat == v@[idxs@[best as int] as int].est_latency_spec(),
            forall|q: int|
                0 <= q < i ==> v@[idxs@[best as int] as int].est_latency_spec() <= (#[trigger] v@[idxs@[q] as int]).est_latency_spec(),
        decreases idxs@.len() - i,
    {
        let lat = v[idxs[i]].get_estimated_latency();
        if lat < best_lat {
            best = i;
            best_lat = lat;
        }
        i = i + 1;
    }
    best
}

} // verus!
