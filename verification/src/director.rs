//! The director: owns the backend set and the probe table, selects a
//! backend per request by consulting the table, and falls back to a
//! uniform random pick when the table cannot produce a choice.

use vstd::prelude::*;
use vstd::string::StringExecFns;

use crate::backend::Backend;
use crate::order::{is_sorted, rank_index, sort_ascending, value_at_rank};
use crate::probe::{
    MAX_PROBE_AGE_MS, ProbeResult, ProbeTable, admitted_step, display_of, hcl_choice,
    hot_cold_threshold, latencies_of, live_fn, max_rif_of, not_handle_fn, rifs_of, with_use,
};
use crate::rng;
use crate::{bump, counted, PROBE_TABLE_SIZE};

verus! {

/// How long the probe loop waits for a trigger before it checks the
/// table's fill level, in milliseconds.
pub const PROBE_INTERVAL_MS: u64 = 5000;

/// How many backends a triggered probe round queries.
pub const DEFAULT_PROBE_COUNT: usize = 3;

/// What a director operation can fail with.
#[derive(Debug)]
pub enum DirectorError {
    /// A host-supplied backend failed structural validation on admission.
    InvalidBackend,
    /// Selection was asked for while the backend set was empty.
    NoBackends,
    /// An internal lock could not be acquired.
    BackendLockError(String),
}

/// How one probe attempt ended.
#[derive(Debug, Clone, Copy, PartialEq, Eq, Structural)]
pub enum ProbeOutcome {
    /// Status 200 with both load headers present and parseable.
    Success,
    /// Status 200 but a load header absent or unparseable.
    MissingHeaders,
    /// Any other status, a connection error, or a timeout.
    Failed,
}

/// Monotonic counters describing the director's activity. Each counter
/// sticks at `u64::MAX` rather than wrap.
#[derive(Debug, Clone, Copy, PartialEq, Eq, Structural)]
pub struct DirectorStats {
    /// Selection calls made.
    pub req: u64,
    /// Selections answered from the probe table.
    pub selected_from_table: u64,
    /// Selections answered by a uniform random pick.
    pub fallback_random: u64,
    /// Probe attempts whose outcome was recorded.
    pub probes_sent: u64,
    /// Probe attempts that produced a sample.
    pub probes_success: u64,
    /// Probe attempts that failed outright.
    pub probes_fail: u64,
    /// Probe attempts answered without usable load headers.
    pub probes_missing_headers: u64,
}

impl DirectorStats {
    /// All counters at zero.
    pub open spec fn zeroed() -> DirectorStats {
        DirectorStats {
            req: 0,
            selected_from_table: 0,
            fallback_random: 0,
            probes_sent: 0,
            probes_success: 0,
            probes_fail: 0,
            probes_missing_headers: 0,
        }
    }

    pub fn new() -> (s: DirectorStats)
        ensures
            s == DirectorStats::zeroed(),
    {
        DirectorStats {
            req: 0,
            selected_from_table: 0,
            fallback_random: 0,
            probes_sent: 0,
            probes_success: 0,
            probes_fail: 0,
            probes_missing_headers: 0,
        }
    }
}

/// Point-in-time gauges describing the director's state, refreshed on
/// request from the probe loop.
#[derive(Debug, Clone, Copy, PartialEq, Eq, Structural)]
pub struct DirectorGauges {
    /// How many backends the set held.
    pub backends: u64,
    /// How many samples the probe table held.
    pub probe_table_size: u64,
    /// Least RIF over the samples, or 0 with no samples.
    pub rif_min: u64,
    /// Median RIF over the samples, or 0 with no samples.
    pub rif_p50: u64,
    /// 80th-percentile RIF over the samples, or 0 with no samples.
    pub rif_p80: u64,
    /// Greatest RIF over the samples, or 0 with no samples.
    pub rif_max: u64,
    /// Least latency estimate over the samples, or 0 with no samples.
    pub latency_min: u64,
    /// Median latency estimate over the samples, or 0 with no samples.
    pub latency_p50: u64,
    /// 80th-percentile latency estimate, or 0 with no samples.
    pub latency_p80: u64,
    /// Greatest latency estimate over the samples, or 0 with no samples.
    pub latency_max: u64,
}

impl DirectorGauges {
    /// All gauges at zero.
    pub open spec fn zeroed() -> DirectorGauges {
        DirectorGauges {
            backends: 0,
            probe_table_size: 0,
            rif_min: 0,
            rif_p50: 0,
            rif_p80: 0,
            rif_max: 0,
            latency_min: 0,
            latency_p50: 0,
            latency_p80: 0,
            latency_max: 0,
        }
    }
}

/// The four summary gauges a run of values yields, read off its sorted
/// order: least value, median, 80th percentile, greatest value — each
/// 0 when the run is empty.
pub open spec fn summarizes(s: Seq<u64>, lo: u64, mid: u64, p80: u64, top: u64) -> bool {
    &&& lo == (if s.len() == 0 {
        0
    } else {
        s[0]
    })
    &&& mid == (if s.len() == 0 {
        0
    } else {
        s[rank_index(s.len() as int, 500)]
    })
    &&& p80 == (if s.len() == 0 {
        0
    } else {
        s[rank_index(s.len() as int, 800)]
    })
    &&& top == (if s.len() == 0 {
        0
    } else {
        s[s.len() - 1]
    })
}

/// No two backends in the set share a handle.
pub open spec fn distinct_backend_handles(s: Seq<Backend>) -> bool {
    forall|i: int, j: int| 0 <= i < j < s.len() ==> s[i].handle != s[j].handle
}

/// Some backend in the set carries this handle.
pub open spec fn contains_handle(s: Seq<Backend>, h: u64) -> bool {
    exists|i: int| 0 <= i < s.len() && (#[trigger] s[i]).handle == h
}

/// Predicate kept when a handle leaves the set: backends with another
/// handle.
pub open spec fn keep_other_handle(handle: u64) -> spec_fn(Backend) -> bool {
    |b: Backend| b.handle != handle
}

/// A filter of a backend set with pairwise-distinct handles again has
/// pairwise-distinct handles.
proof fn lemma_backend_filter_distinct(s: Seq<Backend>, f: spec_fn(Backend) -> bool)
    requires
        distinct_backend_handles(s),
    ensures
        distinct_backend_handles(s.filter(f)),
    decreases s.len(),
{
    reveal(Seq::filter);
    if s.len() > 0 {
        assert(distinct_backend_handles(s.drop_last()));
        lemma_backend_filter_distinct(s.drop_last(), f);
        if f(s.last()) {
            assert forall|i: int|
                0 <= i < s.drop_last().filter(f).len() implies (#[trigger] s.drop_last().filter(
                f,
            )[i]).handle != s.last().handle by {
                lemma_backend_filter_member(s.drop_last(), f, i);
            }
            assert forall|i: int, j: int|
                0 <= i < j < s.filter(f).len() implies s.filter(f)[i].handle != s.filter(
                f,
            )[j].handle by {
                if j == s.filter(f).len() - 1 {
                    assert(s.filter(f)[j] == s.last());
                    assert(s.filter(f)[i] == s.drop_last().filter(f)[i]);
                }
            }
        }
    }
}

/// Every element of a filtered backend set occurs in the original.
proof fn lemma_backend_filter_member(s: Seq<Backend>, f: spec_fn(Backend) -> bool, i: int)
    requires
        0 <= i < s.filter(f).len(),
    ensures
        exists|k: int| 0 <= k < s.len() && #[trigger] s[k] == s.filter(f)[i],
    decreases s.len(),
{
    reveal(Seq::filter);
    if s.len() > 0 {
        if f(s.last()) && i == s.filter(f).len() - 1 {
            assert(s.filter(f)[i] == s.last());
            assert(s[s.len() - 1] == s.last());
        } else {
            lemma_backend_filter_member(s.drop_last(), f, i);
            let k = choose|k: int|
                0 <= k < s.drop_last().len() && #[trigger] s.drop_last()[k] == s.drop_last().filter(
                    f,
                )[i];
            assert(s[k] == s.drop_last()[k]);
        }
    }
}

/// Remove from the set, in place and preserving order, every backend
/// that carries the handle.
#[verifier::loop_isolation(false)]
#[verifier::rlimit(60)]
fn remove_handle_from_set(v: &mut Vec<Backend>, handle: u64)
    ensures
        final(v)@ == old(v)@.filter(keep_other_handle(handle)),
{
    let ghost orig = v@;
    let ghost f = keep_other_handle(handle);
    let mut i: usize = 0;
    let ghost mut j: int = 0;
    while i < v.len()
        invariant
            0 <= j <= orig.len(),
            i as int == orig.take(j).filter(f).len(),
            v@ == orig.take(j).filter(f) + orig.skip(j),
        decreases orig.len() - j,
    {
        proof {
            assert(v@[i as int] == orig.skip(j)[0]);
            assert(orig.skip(j)[0] == orig[j]);
            orig.lemma_take_succ_push(j);
            orig.take(j).lemma_filter_push(orig[j], f);
        }
        if v[i].handle != handle {
            i = i + 1;
            proof {
                assert(v@ =~= orig.take(j + 1).filter(f) + orig.skip(j + 1));
            }
        } else {
            v.remove(i);
            proof {
                assert(v@ =~= orig.take(j + 1).filter(f) + orig.skip(j + 1));
            }
        }
        proof {
            j = j + 1;
        }
    }
    proof {
        assert(orig.skip(j).len() == 0);
        assert(j == orig.len());
        assert(orig.take(j) =~= orig);
    }
}

fn set_contains_handle(v: &Vec<Backend>, handle: u64) -> (r: bool)
    ensures
        r == contains_handle(v@, handle),
{
    let mut i: usize = 0;
    while i < v.len()
        invariant
            0 <= i <= v@.len(),
            forall|k: int| 0 <= k < i ==> (#[trigger] v@[k]).handle != handle,
        decreases v@.len() - i,
    {
        if v[i].handle == handle {
            return true;
        }
        i = i + 1;
    }
    false
}

/// The coordinator: the backend set, the probe table, the probe path,
/// and the activity counters.
#[derive(Debug)]
pub struct Director {
    backends: Vec<Backend>,
    probe_table: ProbeTable,
    probe_path: String,
    stats: DirectorStats,
    gauges: DirectorGauges,
}

impl Director {
    /// The current backend set.
    pub closed spec fn backends_view(&self) -> Seq<Backend> {
        self.backends@
    }

    /// The probe table's current samples.
    pub closed spec fn table_view(&self) -> Seq<ProbeResult> {
        self.probe_table@
    }

    /// The activity counters.
    pub closed spec fn stats_spec(&self) -> DirectorStats {
        self.stats
    }

    /// The point-in-time gauges as last refreshed.
    pub closed spec fn gauges_spec(&self) -> DirectorGauges {
        self.gauges
    }

    /// The configured probe path.
    pub closed spec fn probe_path_spec(&self) -> Seq<char> {
        self.probe_path@
    }

    /// The director invariant: a well-formed table with the default
    /// bounds, and a backend set without duplicate handles.
    pub closed spec fn wf(&self) -> bool {
        &&& self.probe_table.wf()
        &&& self.probe_table.capacity_spec() == PROBE_TABLE_SIZE
        &&& self.probe_table.max_age_spec() == MAX_PROBE_AGE_MS
        &&& distinct_backend_handles(self.backends@)
    }

    /// A director with no backends, an empty probe table, the default
    /// probe path, and zeroed counters.
    pub fn new() -> (d: Director)
        ensures
            d.wf(),
            d.backends_view() =~= Seq::<Backend>::empty(),
            d.table_view() =~= Seq::<ProbeResult>::empty(),
            d.stats_spec() == DirectorStats::zeroed(),
            d.gauges_spec() == DirectorGauges::zeroed(),
            d.probe_path_spec() == "/probe"@,
    {
        Director {
            backends: Vec::new(),
            probe_table: ProbeTable::new(),
            probe_path: String::from_str("/probe"),
            stats: DirectorStats::new(),
            gauges: DirectorGauges {
                backends: 0,
                probe_table_size: 0,
                rif_min: 0,
                rif_p50: 0,
                rif_p80: 0,
                rif_max: 0,
                latency_min: 0,
                latency_p50: 0,
                latency_p80: 0,
                latency_max: 0,
            },
        }
    }

    /// Configure the path that probe requests are sent to.
    pub fn set_probe_path(&mut self, path: &str)
        requires
            old(self).wf(),
        ensures
            final(self).wf(),
            final(self).probe_path_spec() == path@,
            final(self).backends_view() == old(self).backends_view(),
            final(self).table_view() == old(self).table_view(),
            final(self).stats_spec() == old(self).stats_spec(),
            final(self).gauges_spec() == old(self).gauges_spec(),
    {
        self.probe_path = path.to_owned();
    }

    /// The configured probe path.
    pub fn probe_path(&self) -> (p: &String)
        ensures
            p@ == self.probe_path_spec(),
    {
        &self.probe_path
    }

    /// Admit a backend. A backend already present under the same handle
    /// is replaced; the call never fails.
    pub fn add_backend(&mut self, backend: Backend) -> (r: Result<(), DirectorError>)
        requires
            old(self).wf(),
        ensures
            final(self).wf(),
            r is Ok,
            final(self).backends_view() == old(self).backends_view().filter(
                keep_other_handle(backend@.handle),
            ).push(backend),
            contains_handle(final(self).backends_view(), backend@.handle),
            final(self).table_view() == old(self).table_view(),
            final(self).stats_spec() == old(self).stats_spec(),
            final(self).gauges_spec() == old(self).gauges_spec(),
            final(self).probe_path_spec() == old(self).probe_path_spec(),
    {
        let ghost orig = self.backends@;
        let ghost f = keep_other_handle(backend.handle);
        let ghost h = backend.handle;
        remove_handle_from_set(&mut self.backends, backend.handle);
        proof {
            lemma_backend_filter_distinct(orig, f);
            orig.lemma_filter_len(f);
        }
        self.backends.push(backend);
        proof {
            let s = self.backends@;
            assert(s[s.len() - 1].handle == h);
            assert(contains_handle(s, h));
            assert forall|i: int, j: int|
                0 <= i < j < s.len() implies s[i].handle != s[j].handle by {
                if j == s.len() - 1 {
                    orig.lemma_filter_pred(f, i);
                }
            }
        }
        Ok(())
    }

    /// Remove the backend with this handle, if any, and purge its
    /// samples from the probe table. An unknown handle is ignored.
    /// Once this returns, no future selection can yield the handle
    /// until it is re-added.
    pub fn remove_backend(&mut self, handle: u64)
        requires
            old(self).wf(),
        ensures
            final(self).wf(),
            final(self).backends_view() == old(self).backends_view().filter(
                keep_other_handle(handle),
            ),
            !contains_handle(final(self).backends_view(), handle),
            final(self).table_view() == old(self).table_view().filter(not_handle_fn(handle)),
            forall|i: int|
                0 <= i < final(self).table_view().len() ==> (#[trigger] final(self).table_view()[i]).backend.handle
                    != handle,
            final(self).stats_spec() == old(self).stats_spec(),
            final(self).gauges_spec() == old(self).gauges_spec(),
            final(self).probe_path_spec() == old(self).probe_path_spec(),
    {
        let ghost orig = self.backends@;
        let ghost f = keep_other_handle(handle);
        self.probe_table.purge_handle(handle);
        remove_handle_from_set(&mut self.backends, handle);
        proof {
            lemma_backend_filter_distinct(orig, f);
            assert forall|i: int|
                0 <= i < self.backends@.len() implies (#[trigger] self.backends@[i]).handle
                != handle by {
                orig.lemma_filter_pred(f, i);
            }
            assert forall|i: int|
                0 <= i < self.probe_table@.len() implies (#[trigger] self.probe_table@[i]).backend.handle
                != handle by {
                old(self).probe_table@.lemma_filter_pred(not_handle_fn(handle), i);
            }
        }
    }

    /// Feed one collected sample into the probe table.
    pub fn add_probe_result(&mut self, result: ProbeResult, now: u64)
        requires
            old(self).wf(),
        ensures
            final(self).wf(),
            final(self).backends_view() == old(self).backends_view(),
            final(self).stats_spec() == old(self).stats_spec(),
            final(self).gauges_spec() == old(self).gauges_spec(),
            final(self).probe_path_spec() == old(self).probe_path_spec(),
            admitted_step(
                old(self).table_view(),
                result,
                now,
                MAX_PROBE_AGE_MS,
                PROBE_TABLE_SIZE,
                final(self).table_view(),
            ),
    {
        self.probe_table.add_result(result, now);
    }

    /// Record the end of one probe attempt in the counters.
    pub fn record_probe_outcome(&mut self, outcome: ProbeOutcome)
        requires
            old(self).wf(),
        ensures
            final(self).wf(),
            final(self).backends_view() == old(self).backends_view(),
            final(self).table_view() == old(self).table_view(),
            final(self).gauges_spec() == old(self).gauges_spec(),
            final(self).probe_path_spec() == old(self).probe_path_spec(),
            final(self).stats_spec() == (DirectorStats {
                probes_sent: counted(old(self).stats_spec().probes_sent),
                probes_success: if outcome == ProbeOutcome::Success {
                    counted(old(self).stats_spec().probes_success)
                } else {
                    old(self).stats_spec().probes_success
                },
                probes_missing_headers: if outcome == ProbeOutcome::MissingHeaders {
                    counted(old(self).stats_spec().probes_missing_headers)
                } else {
                    old(self).stats_spec().probes_missing_headers
                },
                probes_fail: if outcome == ProbeOutcome::Failed {
                    counted(old(self).stats_spec().probes_fail)
                } else {
                    old(self).stats_spec().probes_fail
                },
                ..old(self).stats_spec()
            }),
    {
        self.stats.probes_sent = bump(self.stats.probes_sent);
        match outcome {
            ProbeOutcome::Success => {
                self.stats.probes_success = bump(self.stats.probes_success);
            },
            ProbeOutcome::MissingHeaders => {
                self.stats.probes_missing_headers = bump(self.stats.probes_missing_headers);
            },
            ProbeOutcome::Failed => {
                self.stats.probes_fail = bump(self.stats.probes_fail);
            },
        }
    }

    /// Select a backend for one request.
    ///
    /// Fails with `NoBackends` exactly when the backend set is empty.
    /// Otherwise the probe table is consulted: if it yields a choice
    /// whose backend is still in the set, that backend is returned with
    /// `true`; else one backend is drawn uniformly at random from the
    /// set and returned with `false`. Every returned backend's handle
    /// is in the set as it stood at the call.
    pub fn get_backend(&mut self, now: u64) -> (r: Result<(Backend, bool), DirectorError>)
        requires
            old(self).wf(),
        ensures
            final(self).wf(),
            final(self).backends_view() == old(self).backends_view(),
            final(self).gauges_spec() == old(self).gauges_spec(),
            final(self).probe_path_spec() == old(self).probe_path_spec(),
            r is Err <==> old(self).backends_view().len() == 0,
            r is Err ==> r == Result::<(Backend, bool), DirectorError>::Err(
                DirectorError::NoBackends,
            ) && final(self).table_view() == old(self).table_view(),
            r matches Ok((b, from_table)) ==> contains_handle(old(self).backends_view(), b@.handle),
            r matches Ok((b, from_table)) ==> (!from_table ==> exists|j: int|
                0 <= j < old(self).backends_view().len() && b@ == (#[trigger] old(self).backends_view()[j])@),
            ({
                let pruned = old(self).table_view().filter(live_fn(now, MAX_PROBE_AGE_MS));
                r matches Ok((b, from_table)) ==> {
                    if pruned.len() == 0 {
                        !from_table && final(self).table_view() == pruned
                    } else {
                        exists|i: int|
                            {
                                &&& #[trigger] hcl_choice(
                                    pruned,
                                    hot_cold_threshold(max_rif_of(pruned)),
                                    i,
                                )
                                &&& final(self).table_view() == pruned.update(
                                    i,
                                    with_use(pruned[i]),
                                )
                                &&& from_table <==> contains_handle(
                                    old(self).backends_view(),
                                    pruned[i].backend.handle,
                                )
                                &&& from_table ==> b@ == pruned[i].backend@
                            }
                    }
                }
            }),
            final(self).stats_spec() == (DirectorStats {
                req: counted(old(self).stats_spec().req),
                selected_from_table: if r matches Ok((b, ft)) && ft {
                    counted(old(self).stats_spec().selected_from_table)
                } else {
                    old(self).stats_spec().selected_from_table
                },
                fallback_random: if r matches Ok((b, ft)) && !ft {
                    counted(old(self).stats_spec().fallback_random)
                } else {
                    old(self).stats_spec().fallback_random
                },
                ..old(self).stats_spec()
            }),
    {
        self.stats.req = bump(self.stats.req);
        if self.backends.len() == 0 {
            return Err(DirectorError::NoBackends);
        }
        let best = self.probe_table.find_best(now);
        match best {
            Some(b) => {
                if set_contains_handle(&self.backends, b.handle) {
                    self.stats.selected_from_table = bump(self.stats.selected_from_table);
                    return Ok((b, true));
                }
            },
            None => {},
        }
        let i = rng::rand_below(self.backends.len());
        let b = self.backends[i].duplicate();
        self.stats.fallback_random = bump(self.stats.fallback_random);
        proof {
            assert(contains_handle(old(self).backends_view(), b@.handle));
        }
        Ok((b, false))
    }

    /// Whether the probe table holds any sample at all.
    pub fn is_healthy(&self) -> (r: bool)
        ensures
            r == (self.table_view().len() > 0),
    {
        self.probe_table.has_probes()
    }

    /// How many backends the set holds.
    pub fn backend_count(&self) -> (n: usize)
        ensures
            n == self.backends_view().len(),
    {
        self.backends.len()
    }

    /// A human-readable listing of the probe table, for diagnostics.
    pub fn debug_probe_table(&self, now: u64) -> (r: Option<String>)
        ensures
            r matches Some(s) && s@ == display_of(self.table_view(), now),
    {
        self.probe_table.display_results(now)
    }

    /// Prune stale samples and report whether the table is at least
    /// half full, as the probe loop's refill check.
    pub fn has_enough_probes(&mut self, now: u64) -> (r: bool)
        requires
            old(self).wf(),
        ensures
            final(self).wf(),
            final(self).backends_view() == old(self).backends_view(),
            final(self).stats_spec() == old(self).stats_spec(),
            final(self).gauges_spec() == old(self).gauges_spec(),
            final(self).probe_path_spec() == old(self).probe_path_spec(),
            r == (final(self).table_view().len() >= PROBE_TABLE_SIZE / 2),
    {
        self.probe_table.has_enough_probes(now)
    }

    /// Recompute the point-in-time gauges from the current state: the
    /// set and table sizes, and the least, median, 80th-percentile and
    /// greatest RIF and latency estimate over the current samples.
    pub fn refresh_gauges(&mut self)
        requires
            old(self).wf(),
        ensures
            final(self).wf(),
            final(self).backends_view() == old(self).backends_view(),
            final(self).table_view() == old(self).table_view(),
            final(self).stats_spec() == old(self).stats_spec(),
            final(self).probe_path_spec() == old(self).probe_path_spec(),
            final(self).gauges_spec().backends == old(self).backends_view().len(),
            final(self).gauges_spec().probe_table_size == old(self).table_view().len(),
            exists|s: Seq<u64>|
                {
                    &&& #[trigger] is_sorted(s)
                    &&& s.to_multiset() == rifs_of(old(self).table_view()).to_multiset()
                    &&& summarizes(
                        s,
                        final(self).gauges_spec().rif_min,
                        final(self).gauges_spec().rif_p50,
                        final(self).gauges_spec().rif_p80,
                        final(self).gauges_spec().rif_max,
                    )
                },
            exists|s: Seq<u64>|
                {
                    &&& #[trigger] is_sorted(s)
                    &&& s.to_multiset() == latencies_of(old(self).table_view()).to_multiset()
                    &&& summarizes(
                        s,
                        final(self).gauges_spec().latency_min,
                        final(self).gauges_spec().latency_p50,
                        final(self).gauges_spec().latency_p80,
                        final(self).gauges_spec().latency_max,
                    )
                },
    {
        let rifs = sort_ascending(self.probe_table.rif_values());
        let lats = sort_ascending(self.probe_table.latency_values());
        proof {
            broadcast use vstd::seq_lib::group_to_multiset_ensures;

            assert(rifs@.to_multiset().len() == rifs@.len());
            assert(rifs_of(self.probe_table@).to_multiset().len() == rifs_of(
                self.probe_table@,
            ).len());
            assert(lats@.to_multiset().len() == lats@.len());
            assert(latencies_of(self.probe_table@).to_multiset().len() == latencies_of(
                self.probe_table@,
            ).len());
        }
        self.gauges = DirectorGauges {
            backends: self.backends.len() as u64,
            probe_table_size: self.probe_table.len() as u64,
            rif_min: value_at_rank(&rifs, 0),
            rif_p50: value_at_rank(&rifs, 500),
            rif_p80: value_at_rank(&rifs, 800),
            rif_max: value_at_rank(&rifs, 1000),
            latency_min: value_at_rank(&lats, 0),
            latency_p50: value_at_rank(&lats, 500),
            latency_p80: value_at_rank(&lats, 800),
            latency_max: value_at_rank(&lats, 1000),
        };
    }

    /// The point-in-time gauges as last refreshed.
    pub fn gauges(&self) -> (g: DirectorGauges)
        ensures
            g == self.gauges_spec(),
    {
        self.gauges
    }

    /// Draw the distinct backend indices one probe round should query:
    /// `count` of them, or every backend if fewer exist.
    pub fn select_probe_targets(&self, count: usize) -> (idxs: Vec<usize>)
        ensures
            idxs@.len() == (if count <= self.backends_view().len() {
                count as int
            } else {
                self.backends_view().len() as int
            }),
            forall|i: int|
                0 <= i < idxs@.len() ==> (#[trigger] idxs@[i]) < self.backends_view().len(),
            forall|i: int, j: int| 0 <= i < j < idxs@.len() ==> idxs@[i] != idxs@[j],
    {
        let n = self.backends.len();
        let amount = if count <= n {
            count
        } else {
            n
        };
        rng::sample_indices(n, amount)
    }

    /// A copy of the backend at an index, for the probe loop.
    pub fn backend_at(&self, i: usize) -> (b: Backend)
        requires
            i < self.backends_view().len(),
        ensures
            b@ == self.backends_view()[i as int]@,
    {
        self.backends[i].duplicate()
    }

    /// The activity counters.
    pub fn stats(&self) -> (s: DirectorStats)
        ensures
            s == self.stats_spec(),
    {
        self.stats
    }
}

/// How many backends the probe loop queries in one round: a trigger
/// asks for the default count; a timeout refills half the table when
/// the table has fallen below half full, and otherwise does nothing.
pub fn plan_probe_count(triggered: bool, table_above_half: bool) -> (n: usize)
    ensures
        n == (if triggered {
            DEFAULT_PROBE_COUNT as int
        } else if !table_above_half {
            PROBE_TABLE_SIZE as int / 2
        } else {
            0
        }),
{
    if triggered {
        DEFAULT_PROBE_COUNT
    } else if !table_above_half {
        PROBE_TABLE_SIZE / 2
    } else {
        0
    }
}

/// Law: at every observable moment a director's probe table holds at
/// most `PROBE_TABLE_SIZE` samples, no two of which share a backend
/// identity.
pub proof fn lemma_director_table_bounded(d: &Director)
    requires
        d.wf(),
    ensures
        d.table_view().len() <= PROBE_TABLE_SIZE,
        crate::probe::distinct_handles(d.table_view()),
{
    crate::probe::lemma_table_invariant(&d.probe_table);
}

/// Law: once a handle is out of the backend set, a selection — whose
/// returned handle is always drawn from the set — cannot yield it
/// until it is re-added.
pub proof fn lemma_removed_backend_not_selected(s: Seq<Backend>, removed: u64, chosen: u64)
    requires
        !contains_handle(s, removed),
        contains_handle(s, chosen),
    ensures
        chosen != removed,
{
}

} // verus!
