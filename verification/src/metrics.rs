//! Counters and latency summaries collected from a simulation run.

use vstd::prelude::*;

use crate::{bump, counted};
use crate::order::{is_sorted, rank_index, sort_ascending, value_at_rank};

verus! {

broadcast use vstd::seq_lib::group_to_multiset_ensures;

/// The sum of the recorded values.
pub open spec fn sum_of(s: Seq<u64>) -> int
    decreases s.len(),
{
    if s.len() == 0 {
        0
    } else {
        sum_of(s.drop_last()) + s.last()
    }
}

/// The greatest recorded value, or 0 if none.
pub open spec fn max_of(s: Seq<u64>) -> int
    decreases s.len(),
{
    if s.len() == 0 {
        0
    } else {
        let rest = max_of(s.drop_last());
        if s.last() >= rest {
            s.last() as int
        } else {
            rest
        }
    }
}

/// Counters and recorded latencies (in microseconds) of one strategy
/// under one scenario. Counters stick at `u64::MAX` rather than wrap.
#[derive(Debug)]
pub struct Metrics {
    /// The balancing strategy the run exercised.
    pub strategy: String,
    /// The scenario the run exercised.
    pub scenario: String,
    total_requests: u64,
    successful_requests: u64,
    failed_requests: u64,
    latencies: Vec<u64>,
}

impl Metrics {
    /// The strategy name.
    pub closed spec fn strategy_spec(&self) -> Seq<char> {
        self.strategy@
    }

    /// The scenario name.
    pub closed spec fn scenario_spec(&self) -> Seq<char> {
        self.scenario@
    }

    pub closed spec fn total_spec(&self) -> u64 {
        self.total_requests
    }

    pub closed spec fn successes_spec(&self) -> u64 {
        self.successful_requests
    }

    pub closed spec fn failures_spec(&self) -> u64 {
        self.failed_requests
    }

    /// The recorded latencies, in order of recording.
    pub closed spec fn latencies_spec(&self) -> Seq<u64> {
        self.latencies@
    }

    pub fn new(strategy: &str, scenario: &str) -> (m: Metrics)
        ensures
            m.strategy_spec() == strategy@,
            m.scenario_spec() == scenario@,
            m.total_spec() == 0,
            m.successes_spec() == 0,
            m.failures_spec() == 0,
            m.latencies_spec() =~= Seq::<u64>::empty(),
    {
        Metrics {
            strategy: strategy.to_owned(),
            scenario: scenario.to_owned(),
            total_requests: 0,
            successful_requests: 0,
            failed_requests: 0,
            latencies: Vec::new(),
        }
    }

    /// Record one served request and its latency in microseconds.
    pub fn record_success(&mut self, latency_us: u64)
        ensures
            final(self).total_spec() == counted(old(self).total_spec()),
            final(self).successes_spec() == counted(old(self).successes_spec()),
            final(self).failures_spec() == old(self).failures_spec(),
            final(self).latencies_spec() == old(self).latencies_spec().push(latency_us),
            final(self).strategy_spec() == old(self).strategy_spec(),
            final(self).scenario_spec() == old(self).scenario_spec(),
    {
        self.total_requests = bump(self.total_requests);
        self.successful_requests = bump(self.successful_requests);
        self.latencies.push(latency_us);
    }

    /// Record one failed request.
    pub fn record_failure(&mut self)
        ensures
            final(self).total_spec() == counted(old(self).total_spec()),
            final(self).failures_spec() == counted(old(self).failures_spec()),
            final(self).successes_spec() == old(self).successes_spec(),
            final(self).latencies_spec() == old(self).latencies_spec(),
            final(self).strategy_spec() == old(self).strategy_spec(),
            final(self).scenario_spec() == old(self).scenario_spec(),
    {
        self.total_requests = bump(self.total_requests);
        self.failed_requests = bump(self.failed_requests);
    }

    pub fn total(&self) -> (r: u64)
        ensures
            r == self.total_spec(),
    {
        self.total_requests
    }

    pub fn successes(&self) -> (r: u64)
        ensures
            r == self.successes_spec(),
    {
        self.successful_requests
    }

    pub fn failures(&self) -> (r: u64)
        ensures
            r == self.failures_spec(),
    {
        self.failed_requests
    }

    /// The recorded latencies in non-decreasing order.
    #[verifier::loop_isolation(false)]
    pub fn sorted_latencies(&self) -> (r: Vec<u64>)
        ensures
            is_sorted(r@),
            r@.to_multiset() == self.latencies_spec().to_multiset(),
    {
        let mut work: Vec<u64> = Vec::new();
        let mut i: usize = 0;
        while i < self.latencies.len()
            invariant
                0 <= i <= self.latencies@.len(),
                work@ == self.latencies@.take(i as int),
            decreases self.latencies@.len() - i,
        {
            work.push(self.latencies[i]);
            proof {
                self.latencies@.lemma_take_succ_push(i as int);
            }
            i = i + 1;
        }
        proof {
            assert(self.latencies@.take(self.latencies@.len() as int) =~= self.latencies@);
        }
        sort_ascending(work)
    }

    /// The latency at a permille rank of the sorted run: the value at
    /// index `count * permille / 1000` (clamped to the last index) of
    /// the recorded latencies in non-decreasing order, or 0 when none
    /// were recorded.
    pub fn percentile(&self, permille: u64) -> (r: u64)
        requires
            permille <= 1000,
        ensures
            self.latencies_spec().len() == 0 ==> r == 0,
            self.latencies_spec().len() > 0 ==> exists|s: Seq<u64>|
                {
                    &&& #[trigger] is_sorted(s)
                    &&& s.to_multiset() == self.latencies_spec().to_multiset()
                    &&& r == s[rank_index(self.latencies_spec().len() as int, permille as int)]
                },
    {
        let sorted = self.sorted_latencies();
        proof {
            assert(sorted@.to_multiset().len() == sorted@.len());
            assert(self.latencies@.to_multiset().len() == self.latencies@.len());
            assert(sorted@.len() == self.latencies_spec().len());
        }
        value_at_rank(&sorted, permille)
    }

    /// The median latency.
    pub fn p50(&self) -> (r: u64)
        ensures
            self.latencies_spec().len() == 0 ==> r == 0,
            self.latencies_spec().len() > 0 ==> exists|s: Seq<u64>|
                {
                    &&& #[trigger] is_sorted(s)
                    &&& s.to_multiset() == self.latencies_spec().to_multiset()
                    &&& r == s[rank_index(self.latencies_spec().len() as int, 500)]
                },
    {
        self.percentile(500)
    }

    /// The 90th-percentile latency.
    pub fn p90(&self) -> (r: u64)
        ensures
            self.latencies_spec().len() == 0 ==> r == 0,
            self.latencies_spec().len() > 0 ==> exists|s: Seq<u64>|
                {
                    &&& #[trigger] is_sorted(s)
                    &&& s.to_multiset() == self.latencies_spec().to_multiset()
                    &&& r == s[rank_index(self.latencies_spec().len() as int, 900)]
                },
    {
        self.percentile(900)
    }

    /// The 99th-percentile latency.
    pub fn p99(&self) -> (r: u64)
        ensures
            self.latencies_spec().len() == 0 ==> r == 0,
            self.latencies_spec().len() > 0 ==> exists|s: Seq<u64>|
                {
                    &&& #[trigger] is_sorted(s)
                    &&& s.to_multiset() == self.latencies_spec().to_multiset()
                    &&& r == s[rank_index(self.latencies_spec().len() as int, 990)]
                },
    {
        self.percentile(990)
    }

    /// The 99.9th-percentile latency.
    pub fn p999(&self) -> (r: u64)
        ensures
            self.latencies_spec().len() == 0 ==> r == 0,
            self.latencies_spec().len() > 0 ==> exists|s: Seq<u64>|
                {
                    &&& #[trigger] is_sorted(s)
                    &&& s.to_multiset() == self.latencies_spec().to_multiset()
                    &&& r == s[rank_index(self.latencies_spec().len() as int, 999)]
                },
    {
        self.percentile(999)
    }

    /// The mean recorded latency, rounded down, or 0 when none were
    /// recorded.
    #[verifier::loop_isolation(false)]
    pub fn mean(&self) -> (r: u64)
        ensures
            self.latencies_spec().len() == 0 ==> r == 0,
            self.latencies_spec().len() > 0 ==> r == sum_of(self.latencies_spec()) / (
            self.latencies_spec().len() as int),
    {
        let n = self.latencies.len();
        if n == 0 {
            return 0;
        }
        let mut acc: u128 = 0;
        let mut i: usize = 0;
        while i < n
            invariant
                0 <= i <= n,
                n == self.latencies@.len(),
                acc == sum_of(self.latencies@.take(i as int)),
                acc <= (i as int) * (u64::MAX as int),
            decreases n - i,
        {
            proof {
                self.latencies@.lemma_take_succ_push(i as int);
                assert(self.latencies@.take(i as int + 1).drop_last() =~= self.latencies@.take(
                    i as int,
                ));
            }
            acc = acc + (self.latencies[i] as u128);
            i = i + 1;
        }
        proof {
            assert(self.latencies@.take(n as int) =~= self.latencies@);
            assert(acc / (n as u128) <= u64::MAX) by (nonlinear_arith)
                requires
                    acc <= (n as int) * (u64::MAX as int),
                    n > 0,
            ;
        }
        (acc / (n as u128)) as u64
    }

    /// The greatest recorded latency, or 0 when none were recorded.
    #[verifier::loop_isolation(false)]
    pub fn max(&self) -> (r: u64)
        ensures
            r == max_of(self.latencies_spec()),
    {
        let mut m: u64 = 0;
        let mut i: usize = 0;
        while i < self.latencies.len()
            invariant
                0 <= i <= self.latencies@.len(),
                m == max_of(self.latencies@.take(i as int)),
            decreases self.latencies@.len() - i,
        {
            proof {
                self.latencies@.lemma_take_succ_push(i as int);
                assert(self.latencies@.take(i as int + 1).drop_last() =~= self.latencies@.take(
                    i as int,
                ));
            }
            if self.latencies[i] >= m {
                m = self.latencies[i];
            }
            i = i + 1;
        }
        proof {
            assert(self.latencies@.take(self.latencies@.len() as int) =~= self.latencies@);
        }
        m
    }
}

} // verus!
