//! The probe table: a bounded, time- and usage-aged collection of
//! backend-load samples, with hot/cold-lexicographic (HCL) selection and
//! inverse-HCL eviction.
//!
//! Timestamps are monotonic milliseconds supplied by the caller; ages
//! saturate at zero when a timestamp lies in the future.

use vstd::prelude::*;
use vstd::string::StringExecFns;

use crate::backend::Backend;
use crate::PROBE_TABLE_SIZE;

verus! {

/// A sample older than this many milliseconds is stale.
pub const MAX_PROBE_AGE_MS: u64 = 5000;

/// A sample consumed this many times by selection is spent.
pub const MAX_USES_BEFORE_EXPIRE: u64 = 3;

/// One freshness-stamped observation of a backend's load.
#[derive(Debug, Clone)]
pub struct ProbeResult {
    /// Monotonic milliseconds at which the observation was taken.
    pub timestamp: u64,
    /// Requests in flight at the backend, as the backend reported.
    pub rif: u64,
    /// Backend-reported latency estimate, in opaque units.
    pub est_latency: u64,
    /// How many selections have consumed this sample.
    pub used_count: u64,
    /// The backend the observation belongs to.
    pub backend: Backend,
}

impl ProbeResult {
    pub fn new(timestamp: u64, rif: u64, est_latency: u64, backend: Backend) -> (p: ProbeResult)
        ensures
            p.timestamp == timestamp,
            p.rif == rif,
            p.est_latency == est_latency,
            p.used_count == 0,
            p.backend == backend,
    {
        ProbeResult { timestamp, rif, est_latency, used_count: 0, backend }
    }

    /// Count one more use of this sample; returns the new use count.
    pub fn increment_used(&mut self) -> (c: u64)
        requires
            old(self).used_count < u64::MAX,
        ensures
            *final(self) == (ProbeResult { used_count: (old(self).used_count + 1) as u64, ..*old(self) }),
            c == old(self).used_count + 1,
    {
        self.used_count = self.used_count + 1;
        self.used_count
    }

    pub fn is_over_used(&self) -> (r: bool)
        ensures
            r == (self.used_count >= MAX_USES_BEFORE_EXPIRE),
    {
        self.used_count >= MAX_USES_BEFORE_EXPIRE
    }
}

/// The sample's age at `now` is within `max_age_ms` (a timestamp in the
/// future counts as age zero).
pub open spec fn fresh_at(p: ProbeResult, now: u64, max_age_ms: u64) -> bool {
    now <= p.timestamp + max_age_ms
}

/// The sample may still be consumed: it is fresh and not yet spent.
pub open spec fn live_at(p: ProbeResult, now: u64, max_age_ms: u64) -> bool {
    p.used_count < MAX_USES_BEFORE_EXPIRE && fresh_at(p, now, max_age_ms)
}

/// Predicate kept by pruning: live samples.
pub open spec fn live_fn(now: u64, max_age_ms: u64) -> spec_fn(ProbeResult) -> bool {
    |q: ProbeResult| live_at(q, now, max_age_ms)
}

/// Predicate kept by an insert's pruning: live samples of other backends.
pub open spec fn live_except_fn(now: u64, max_age_ms: u64, handle: u64) -> spec_fn(
    ProbeResult,
) -> bool {
    |q: ProbeResult| live_at(q, now, max_age_ms) && q.backend.handle != handle
}

/// Predicate kept when a backend is purged: samples of other backends.
pub open spec fn not_handle_fn(handle: u64) -> spec_fn(ProbeResult) -> bool {
    |q: ProbeResult| q.backend.handle != handle
}

/// Predicate kept when only staleness is pruned: fresh samples.
pub open spec fn fresh_fn(now: u64, max_age_ms: u64) -> spec_fn(ProbeResult) -> bool {
    |q: ProbeResult| fresh_at(q, now, max_age_ms)
}

/// No two samples belong to the same backend identity.
pub open spec fn distinct_handles(s: Seq<ProbeResult>) -> bool {
    forall|i: int, j: int|
        0 <= i < j < s.len() ==> s[i].backend.handle != s[j].backend.handle
}

/// The greatest requests-in-flight value over the samples, or 0 if none.
pub open spec fn max_rif_of(s: Seq<ProbeResult>) -> int
    decreases s.len(),
{
    if s.len() == 0 {
        0
    } else {
        let rest = max_rif_of(s.drop_last());
        if s.last().rif >= rest {
            s.last().rif as int
        } else {
            rest
        }
    }
}

/// The hot/cold split: samples at or below `max_rif * 4 / 5` (that is,
/// eight tenths of the greatest RIF, rounded down) are cold.
pub open spec fn hot_cold_threshold(max_rif: int) -> int {
    max_rif * 4 / 5
}

pub open spec fn is_cold(p: ProbeResult, t: int) -> bool {
    p.rif <= t
}

pub open spec fn has_cold(s: Seq<ProbeResult>, t: int) -> bool {
    exists|i: int| 0 <= i < s.len() && is_cold(#[trigger] s[i], t)
}

/// `i` is the index the HCL selection rule chooses from `s` under
/// threshold `t`: the first cold sample of least latency if any sample is
/// cold, otherwise the first sample of least RIF.
pub open spec fn hcl_choice(s: Seq<ProbeResult>, t: int, i: int) -> bool {
    &&& 0 <= i < s.len()
    &&& if has_cold(s, t) {
        &&& is_cold(s[i], t)
        &&& forall|j: int|
            0 <= j < s.len() && is_cold(#[trigger] s[j], t) ==> s[i].est_latency <= s[j].est_latency
        &&& forall|j: int|
            0 <= j < i && is_cold(#[trigger] s[j], t) ==> s[i].est_latency < s[j].est_latency
    } else {
        &&& forall|j: int| 0 <= j < s.len() ==> s[i].rif <= #[trigger] s[j].rif
        &&& forall|j: int| 0 <= j < i ==> s[i].rif < #[trigger] s[j].rif
    }
}

pub open spec fn is_hot(p: ProbeResult, t: int) -> bool {
    p.rif > t
}

pub open spec fn has_hot(s: Seq<ProbeResult>, t: int) -> bool {
    exists|i: int| 0 <= i < s.len() && is_hot(#[trigger] s[i], t)
}

/// `i` is the index the inverse-HCL eviction rule removes from `s` under
/// threshold `t`: the first hot sample of greatest latency if any sample
/// is hot, otherwise the first sample of greatest latency.
pub open spec fn evict_choice(s: Seq<ProbeResult>, t: int, i: int) -> bool {
    &&& 0 <= i < s.len()
    &&& if has_hot(s, t) {
        &&& is_hot(s[i], t)
        &&& forall|j: int|
            0 <= j < s.len() && is_hot(#[trigger] s[j], t) ==> s[j].est_latency <= s[i].est_latency
        &&& forall|j: int|
            0 <= j < i && is_hot(#[trigger] s[j], t) ==> s[j].est_latency < s[i].est_latency
    } else {
        &&& forall|j: int| 0 <= j < s.len() ==> #[trigger] s[j].est_latency <= s[i].est_latency
        &&& forall|j: int| 0 <= j < i ==> #[trigger] s[j].est_latency < s[i].est_latency
    }
}

/// The sample after one more selection has consumed it.
pub open spec fn with_use(p: ProbeResult) -> ProbeResult {
    ProbeResult { used_count: (p.used_count + 1) as u64, ..p }
}

/// The RIF of each sample, in order.
pub open spec fn rifs_of(s: Seq<ProbeResult>) -> Seq<u64> {
    s.map_values(|p: ProbeResult| p.rif)
}

/// The latency estimate of each sample, in order.
pub open spec fn latencies_of(s: Seq<ProbeResult>) -> Seq<u64> {
    s.map_values(|p: ProbeResult| p.est_latency)
}

/// How one admission changes the table's contents: `post` is `pre`
/// pruned of spent, stale and same-backend samples, with `p` appended,
/// and — only when that exceeds `cap` — the inverse-HCL eviction
/// victim removed.
pub open spec fn admitted_step(
    pre: Seq<ProbeResult>,
    p: ProbeResult,
    now: u64,
    max_age_ms: u64,
    cap: usize,
    post: Seq<ProbeResult>,
) -> bool {
    let appended = pre.filter(live_except_fn(now, max_age_ms, p.backend.handle)).push(p);
    if appended.len() <= cap {
        post == appended
    } else {
        exists|i: int|
            #[trigger] evict_choice(appended, hot_cold_threshold(max_rif_of(appended)), i)
                && post == appended.remove(i)
    }
}

/// How a run of admissions changes the table's contents: `post` comes
/// from `pre` by admitting the samples first to last, each by
/// `admitted_step`.
pub open spec fn admitted_seq(
    pre: Seq<ProbeResult>,
    samples: Seq<ProbeResult>,
    now: u64,
    max_age_ms: u64,
    cap: usize,
    post: Seq<ProbeResult>,
) -> bool
    decreases samples.len(),
{
    if samples.len() == 0 {
        post == pre
    } else {
        exists|mid: Seq<ProbeResult>|
            #[trigger] admitted_step(pre, samples.first(), now, max_age_ms, cap, mid)
                && admitted_seq(mid, samples.drop_first(), now, max_age_ms, cap, post)
    }
}

/// Admitting one more sample extends a run of admissions.
pub proof fn lemma_admitted_seq_snoc(
    pre: Seq<ProbeResult>,
    samples: Seq<ProbeResult>,
    p: ProbeResult,
    now: u64,
    max_age_ms: u64,
    cap: usize,
    mid: Seq<ProbeResult>,
    post: Seq<ProbeResult>,
)
    requires
        admitted_seq(pre, samples, now, max_age_ms, cap, mid),
        admitted_step(mid, p, now, max_age_ms, cap, post),
    ensures
        admitted_seq(pre, samples.push(p), now, max_age_ms, cap, post),
    decreases samples.len(),
{
    if samples.len() == 0 {
        assert(mid == pre);
        assert(samples.push(p).first() == p);
        assert(samples.push(p).drop_first() =~= Seq::<ProbeResult>::empty());
        assert(admitted_step(pre, samples.push(p).first(), now, max_age_ms, cap, post));
        assert(admitted_seq(post, samples.push(p).drop_first(), now, max_age_ms, cap, post));
    } else {
        let mid1 = choose|mid1: Seq<ProbeResult>|
            #[trigger] admitted_step(pre, samples.first(), now, max_age_ms, cap, mid1)
                && admitted_seq(mid1, samples.drop_first(), now, max_age_ms, cap, mid);
        lemma_admitted_seq_snoc(mid1, samples.drop_first(), p, now, max_age_ms, cap, mid, post);
        assert(samples.push(p).first() == samples.first());
        assert(samples.push(p).drop_first() =~= samples.drop_first().push(p));
        assert(admitted_step(pre, samples.push(p).first(), now, max_age_ms, cap, mid1));
        assert(admitted_seq(mid1, samples.push(p).drop_first(), now, max_age_ms, cap, post));
    }
}

/// The text `format_probe_line` renders for one sample: a function of
/// the index, the sample and the age alone.
pub uninterp spec fn line_of(idx: int, p: ProbeResult, age_secs: u64) -> Seq<char>;

/// A sample's age at `now` in whole seconds, saturating at zero when
/// the timestamp lies in the future.
pub open spec fn age_secs_at(p: ProbeResult, now: u64) -> u64 {
    if now <= p.timestamp {
        0
    } else {
        ((now - p.timestamp) / 1000) as u64
    }
}

/// The listing of a whole table at `now`: one rendered line per
/// sample, in table order.
pub open spec fn display_of(s: Seq<ProbeResult>, now: u64) -> Seq<char>
    decreases s.len(),
{
    if s.len() == 0 {
        Seq::empty()
    } else {
        display_of(s.drop_last(), now) + line_of(
            s.len() - 1,
            s.last(),
            age_secs_at(s.last(), now),
        )
    }
}

/// Which samples a pruning pass keeps.
#[derive(Clone, Copy)]
enum KeepRule {
    /// Keep live samples (fresh and not spent).
    Live { now: u64 },
    /// Keep live samples of backends other than `handle`.
    LiveExcept { now: u64, handle: u64 },
    /// Keep samples of backends other than `handle`.
    NotHandle { handle: u64 },
    /// Keep fresh samples (staleness only).
    Fresh { now: u64 },
}

spec fn keep_spec(rule: KeepRule, max_age_ms: u64) -> spec_fn(ProbeResult) -> bool {
    match rule {
        KeepRule::Live { now } => live_fn(now, max_age_ms),
        KeepRule::LiveExcept { now, handle } => live_except_fn(now, max_age_ms, handle),
        KeepRule::NotHandle { handle } => not_handle_fn(handle),
        KeepRule::Fresh { now } => fresh_fn(now, max_age_ms),
    }
}

/// Whether the sample's age at `now` is within `max_age_ms`.
fn check_fresh(p: &ProbeResult, now: u64, max_age_ms: u64) -> (r: bool)
    ensures
        r == fresh_at(*p, now, max_age_ms),
{
    if now <= p.timestamp {
        true
    } else {
        now - p.timestamp <= max_age_ms
    }
}

fn check_keep(p: &ProbeResult, rule: &KeepRule, max_age_ms: u64) -> (r: bool)
    ensures
        r == keep_spec(*rule, max_age_ms)(*p),
{
    match rule {
        KeepRule::Live { now } => {
            p.used_count < MAX_USES_BEFORE_EXPIRE && check_fresh(p, *now, max_age_ms)
        },
        KeepRule::LiveExcept { now, handle } => {
            p.used_count < MAX_USES_BEFORE_EXPIRE && check_fresh(p, *now, max_age_ms)
                && p.backend.handle != *handle
        },
        KeepRule::NotHandle { handle } => p.backend.handle != *handle,
        KeepRule::Fresh { now } => check_fresh(p, *now, max_age_ms),
    }
}

/// Every sample a filter keeps satisfies its predicate, and a filter of
/// a sequence with pairwise-distinct handles again has pairwise-distinct
/// handles.
proof fn lemma_filter_distinct(s: Seq<ProbeResult>, f: spec_fn(ProbeResult) -> bool)
    requires
        distinct_handles(s),
    ensures
        distinct_handles(s.filter(f)),
    decreases s.len(),
{
    reveal(Seq::filter);
    if s.len() > 0 {
        assert(distinct_handles(s.drop_last()));
        lemma_filter_distinct(s.drop_last(), f);
        if f(s.last()) {
            lemma_filter_handle_absent(s.drop_last(), f, s.last().backend.handle);
            assert forall|i: int, j: int|
                0 <= i < j < s.filter(f).len() implies s.filter(f)[i].backend.handle != s.filter(
                f,
            )[j].backend.handle by {
                if j == s.filter(f).len() - 1 {
                    assert(s.filter(f)[j] == s.last());
                    assert(s.filter(f)[i] == s.drop_last().filter(f)[i]);
                }
            }
        }
    }
}

/// If no sample of `s` carries `handle`, no sample of a filter of `s`
/// does either.
proof fn lemma_filter_handle_absent(
    s: Seq<ProbeResult>,
    f: spec_fn(ProbeResult) -> bool,
    handle: u64,
)
    requires
        forall|i: int| 0 <= i < s.len() ==> (#[trigger] s[i]).backend.handle != handle,
    ensures
        forall|i: int|
            0 <= i < s.filter(f).len() ==> (#[trigger] s.filter(f)[i]).backend.handle != handle,
    decreases s.len(),
{
    reveal(Seq::filter);
    if s.len() > 0 {
        assert(forall|i: int|
            0 <= i < s.drop_last().len() ==> (#[trigger] s.drop_last()[i]).backend.handle
                != handle);
        lemma_filter_handle_absent(s.drop_last(), f, handle);
        assert forall|i: int|
            0 <= i < s.filter(f).len() implies (#[trigger] s.filter(f)[i]).backend.handle
            != handle by {
            if f(s.last()) {
                assert(s.filter(f) == s.drop_last().filter(f).push(s.last()));
                if i < s.filter(f).len() - 1 {
                    assert(s.filter(f)[i] == s.drop_last().filter(f)[i]);
                } else {
                    assert(s.filter(f)[i] == s.last());
                    assert(s.last() == s[s.len() - 1]);
                }
            } else {
                assert(s.filter(f) == s.drop_last().filter(f));
            }
        }
    }
}

/// Removing an element keeps handles pairwise distinct.
proof fn lemma_remove_distinct(s: Seq<ProbeResult>, i: int)
    requires
        distinct_handles(s),
        0 <= i < s.len(),
    ensures
        distinct_handles(s.remove(i)),
{
    assert forall|k: int, l: int|
        0 <= k < l < s.remove(i).len() implies s.remove(i)[k].backend.handle != s.remove(
        i,
    )[l].backend.handle by {
        let k0 = if k < i { k } else { k + 1 };
        let l0 = if l < i { l } else { l + 1 };
        assert(s.remove(i)[k] == s[k0]);
        assert(s.remove(i)[l] == s[l0]);
    }
}

/// Two sequences whose samples agree pointwise on RIF share their
/// greatest-RIF summary.
proof fn lemma_max_rif_pointwise(a: Seq<ProbeResult>, b: Seq<ProbeResult>)
    requires
        a.len() == b.len(),
        forall|k: int| 0 <= k < a.len() ==> (#[trigger] a[k]).rif == b[k].rif,
    ensures
        max_rif_of(a) == max_rif_of(b),
    decreases a.len(),
{
    if a.len() > 0 {
        assert(forall|k: int|
            0 <= k < a.drop_last().len() ==> (#[trigger] a.drop_last()[k]).rif
                == b.drop_last()[k].rif);
        lemma_max_rif_pointwise(a.drop_last(), b.drop_last());
    }
}

/// The threshold between cold and hot samples, computed without
/// overflow.
fn threshold_exec(m: u64) -> (t: u64)
    ensures
        t as int == hot_cold_threshold(m as int),
        t <= m,
{
    let wide: u128 = (m as u128) * 4 / 5;
    proof {
        assert((m as int) * 4 / 5 <= m as int) by (nonlinear_arith);
        assert((m as int) * 4 / 5 >= 0) by (nonlinear_arith);
    }
    wide as u64
}

/// The index the HCL selection rule picks from a non-empty sequence.
#[verifier::loop_isolation(false)]
fn find_hcl_index(v: &Vec<ProbeResult>, t: u64) -> (r: usize)
    requires
        v@.len() > 0,
    ensures
        hcl_choice(v@, t as int, r as int),
{
    let mut best: usize = 0;
    let mut found_cold: bool = v[0].rif <= t;
    let mut i: usize = 1;
    proof {
        assert(v@.take(1)[0] == v@[0]);
        if has_cold(v@.take(1), t as int) {
            let w = choose|w: int| 0 <= w < 1 && is_cold(#[trigger] v@.take(1)[w], t as int);
            assert(is_cold(v@[0], t as int));
        }
        if is_cold(v@[0], t as int) {
            assert(is_cold(v@.take(1)[0], t as int));
            assert(has_cold(v@.take(1), t as int));
        }
    }
    while i < v.len()
        invariant
            1 <= i <= v@.len(),
            0 <= best < i,
            found_cold == has_cold(v@.take(i as int), t as int),
            found_cold ==> is_cold(v@[best as int], t as int),
            found_cold ==> forall|j: int|
                0 <= j < i && is_cold(#[trigger] v@[j], t as int) ==> v@[best as int].est_latency
                    <= v@[j].est_latency,
            found_cold ==> forall|j: int|
                0 <= j < best && is_cold(#[trigger] v@[j], t as int) ==> v@[best as int].est_latency
                    < v@[j].est_latency,
            !found_cold ==> forall|j: int|
                0 <= j < i ==> v@[best as int].rif <= #[trigger] v@[j].rif,
            !found_cold ==> forall|j: int| 0 <= j < best ==> v@[best as int].rif < #[trigger] v@[j].rif,
        decreases v@.len() - i,
    {
        let p_cold = v[i].rif <= t;
        if p_cold && !found_cold {
            best = i;
            found_cold = true;
        } else if p_cold && found_cold && v[i].est_latency < v[best].est_latency {
            best = i;
        } else if !found_cold && v[i].rif < v[best].rif {
            best = i;
        }
        proof {
            assert(v@.take(i + 1).take(i as int) =~= v@.take(i as int));
            assert forall|k: int| 0 <= k < i + 1 implies (#[trigger] v@.take(i + 1)[k]) == v@[k] by {}
            if !has_cold(v@.take(i as int), t as int) {
                assert forall|j: int| 0 <= j < i implies !is_cold(#[trigger] v@[j], t as int) by {
                    if is_cold(v@[j], t as int) {
                        assert(is_cold(v@.take(i as int)[j], t as int));
                    }
                }
            }
            if is_cold(v@[i as int], t as int) {
                assert(is_cold(v@.take(i + 1)[i as int], t as int));
                assert(has_cold(v@.take(i + 1), t as int));
            }
            if has_cold(v@.take(i + 1), t as int) && !has_cold(v@.take(i as int), t as int)
                && !is_cold(v@[i as int], t as int) {
                let w = choose|w: int|
                    0 <= w < v@.take(i + 1).len() && is_cold(#[trigger] v@.take(i + 1)[w], t as int);
                assert(w < i ==> is_cold(v@.take(i as int)[w], t as int));
                assert(false);
            }
        }
        i = i + 1;
    }
    proof {
        assert(v@.take(v@.len() as int) =~= v@);
        assert(has_cold(v@, t as int) == has_cold(v@.take(v@.len() as int), t as int));
    }
    best
}

/// The index the inverse-HCL eviction rule removes from a non-empty
/// sequence.
#[verifier::loop_isolation(false)]
fn find_evict_index(v: &Vec<ProbeResult>, t: u64) -> (r: usize)
    requires
        v@.len() > 0,
    ensures
        evict_choice(v@, t as int, r as int),
{
    let mut best: usize = 0;
    let mut found_hot: bool = v[0].rif > t;
    let mut i: usize = 1;
    proof {
        assert(v@.take(1)[0] == v@[0]);
        if has_hot(v@.take(1), t as int) {
            let w = choose|w: int| 0 <= w < 1 && is_hot(#[trigger] v@.take(1)[w], t as int);
            assert(is_hot(v@[0], t as int));
        }
        if is_hot(v@[0], t as int) {
            assert(is_hot(v@.take(1)[0], t as int));
            assert(has_hot(v@.take(1), t as int));
        }
    }
    while i < v.len()
        invariant
            1 <= i <= v@.len(),
            0 <= best < i,
            found_hot == has_hot(v@.take(i as int), t as int),
            found_hot ==> is_hot(v@[best as int], t as int),
            found_hot ==> forall|j: int|
                0 <= j < i && is_hot(#[trigger] v@[j], t as int) ==> v@[j].est_latency
                    <= v@[best as int].est_latency,
            found_hot ==> forall|j: int|
                0 <= j < best && is_hot(#[trigger] v@[j], t as int) ==> v@[j].est_latency
                    < v@[best as int].est_latency,
            !found_hot ==> forall|j: int|
                0 <= j < i ==> #[trigger] v@[j].est_latency <= v@[best as int].est_latency,
            !found_hot ==> forall|j: int|
                0 <= j < best ==> #[trigger] v@[j].est_latency < v@[best as int].est_latency,
        decreases v@.len() - i,
    {
        let p_hot = v[i].rif > t;
        if p_hot && !found_hot {
            best = i;
            found_hot = true;
        } else if p_hot && found_hot && v[i].est_latency > v[best].est_latency {
            best = i;
        } else if !found_hot && v[i].est_latency > v[best].est_latency {
            best = i;
        }
        proof {
            assert(v@.take(i + 1).take(i as int) =~= v@.take(i as int));
            assert forall|k: int| 0 <= k < i + 1 implies (#[trigger] v@.take(i + 1)[k]) == v@[k] by {}
            if !has_hot(v@.take(i as int), t as int) {
                assert forall|j: int| 0 <= j < i implies !is_hot(#[trigger] v@[j], t as int) by {
                    if is_hot(v@[j], t as int) {
                        assert(is_hot(v@.take(i as int)[j], t as int));
                    }
                }
            }
            if is_hot(v@[i as int], t as int) {
                assert(is_hot(v@.take(i + 1)[i as int], t as int));
                assert(has_hot(v@.take(i + 1), t as int));
            }
            if has_hot(v@.take(i + 1), t as int) && !has_hot(v@.take(i as int), t as int) && !is_hot(
                v@[i as int],
                t as int,
            ) {
                let w = choose|w: int|
                    0 <= w < v@.take(i + 1).len() && is_hot(#[trigger] v@.take(i + 1)[w], t as int);
                assert(w < i ==> is_hot(v@.take(i as int)[w], t as int));
                assert(false);
            }
        }
        i = i + 1;
    }
    proof {
        assert(v@.take(v@.len() as int) =~= v@);
        assert(has_hot(v@, t as int) == has_hot(v@.take(v@.len() as int), t as int));
    }
    best
}

/// A bounded table of probe samples, at most one per backend, together
/// with a cached summary of the greatest RIF over its contents.
#[derive(Debug)]
pub struct ProbeTable {
    results: Vec<ProbeResult>,
    max_rif: u64,
    capacity: usize,
    max_age_ms: u64,
}

impl View for ProbeTable {
    type V = Seq<ProbeResult>;

    closed spec fn view(&self) -> Seq<ProbeResult> {
        self.results@
    }
}

impl ProbeTable {
    /// How many samples the table may hold.
    pub closed spec fn capacity_spec(&self) -> usize {
        self.capacity
    }

    /// Age bound, in milliseconds, beyond which a sample is stale.
    pub closed spec fn max_age_spec(&self) -> u64 {
        self.max_age_ms
    }

    /// The table invariant: bounded size, one sample per backend, and a
    /// correct cached RIF summary.
    pub closed spec fn wf(&self) -> bool {
        &&& self.results@.len() <= self.capacity
        &&& distinct_handles(self.results@)
        &&& self.max_rif == max_rif_of(self.results@)
    }

    /// A table with the default bounds.
    pub fn new() -> (t: ProbeTable)
        ensures
            t.wf(),
            t@ =~= Seq::<ProbeResult>::empty(),
            t.capacity_spec() == PROBE_TABLE_SIZE,
            t.max_age_spec() == MAX_PROBE_AGE_MS,
    {
        ProbeTable {
            results: Vec::new(),
            max_rif: 0,
            capacity: PROBE_TABLE_SIZE,
            max_age_ms: MAX_PROBE_AGE_MS,
        }
    }

    /// A table with chosen bounds.
    pub fn with_config(capacity: usize, max_age_ms: u64) -> (t: ProbeTable)
        ensures
            t.wf(),
            t@ =~= Seq::<ProbeResult>::empty(),
            t.capacity_spec() == capacity,
            t.max_age_spec() == max_age_ms,
    {
        ProbeTable { results: Vec::new(), max_rif: 0, capacity, max_age_ms }
    }

    /// Remove, in place and preserving order, every sample the rule
    /// does not keep.
    #[verifier::loop_isolation(false)]
    #[verifier::rlimit(60)]
    fn retain_keep(&mut self, rule: KeepRule)
        ensures
            final(self).results@ == old(self).results@.filter(
                keep_spec(rule, old(self).max_age_ms),
            ),
            final(self).max_rif == old(self).max_rif,
            final(self).capacity == old(self).capacity,
            final(self).max_age_ms == old(self).max_age_ms,
    {
        let ghost orig = self.results@;
        let ghost f = keep_spec(rule, self.max_age_ms);
        let mut i: usize = 0;
        let ghost mut j: int = 0;
        while i < self.results.len()
            invariant
                0 <= j <= orig.len(),
                i as int == orig.take(j).filter(f).len(),
                self.results@ == orig.take(j).filter(f) + orig.skip(j),
                self.max_rif == old(self).max_rif,
                self.capacity == old(self).capacity,
                self.max_age_ms == old(self).max_age_ms,
            decreases orig.len() - j,
        {
            proof {
                assert(self.results@[i as int] == orig.skip(j)[0]);
                assert(orig.skip(j)[0] == orig[j]);
                orig.lemma_take_succ_push(j);
                orig.take(j).lemma_filter_push(orig[j], f);
            }
            let keep = check_keep(&self.results[i], &rule, self.max_age_ms);
            if keep {
                i = i + 1;
                proof {
                    assert(self.results@ =~= orig.take(j + 1).filter(f) + orig.skip(j + 1));
                }
            } else {
                self.results.remove(i);
                proof {
                    assert(self.results@ =~= orig.take(j + 1).filter(f) + orig.skip(j + 1));
                }
            }
            proof {
                j = j + 1;
            }
        }
        proof {
            assert(orig.skip(j).len() == 0);
            assert(j == orig.len());
            assert(orig.take(j) =~= orig);
        }
    }

    /// Recompute the cached greatest-RIF summary from the contents.
    #[verifier::loop_isolation(false)]
    fn recompute_max_rif(&mut self)
        ensures
            final(self).results@ == old(self).results@,
            final(self).capacity == old(self).capacity,
            final(self).max_age_ms == old(self).max_age_ms,
            final(self).max_rif == max_rif_of(old(self).results@),
    {
        let mut m: u64 = 0;
        let mut i: usize = 0;
        while i < self.results.len()
            invariant
                0 <= i <= self.results@.len(),
                self.results@ == old(self).results@,
                self.capacity == old(self).capacity,
                self.max_age_ms == old(self).max_age_ms,
                self.max_rif == old(self).max_rif,
                m == max_rif_of(self.results@.take(i as int)),
            decreases self.results@.len() - i,
        {
            proof {
                self.results@.lemma_take_succ_push(i as int);
                assert(self.results@.take(i as int + 1).drop_last() =~= self.results@.take(
                    i as int,
                ));
            }
            if self.results[i].rif >= m {
                m = self.results[i].rif;
            }
            i = i + 1;
        }
        proof {
            assert(self.results@.take(self.results@.len() as int) =~= self.results@);
        }
        self.max_rif = m;
    }

    /// Admit a fresh sample: prune spent and stale samples, drop any
    /// prior sample of the same backend, append the new one, and if the
    /// table then exceeds its capacity, evict by the inverse-HCL rule.
    /// Never fails.
    pub fn add_result(&mut self, result: ProbeResult, now: u64)
        requires
            old(self).wf(),
        ensures
            final(self).wf(),
            final(self).capacity_spec() == old(self).capacity_spec(),
            final(self).max_age_spec() == old(self).max_age_spec(),
            admitted_step(
                old(self)@,
                result,
                now,
                old(self).max_age_spec(),
                old(self).capacity_spec(),
                final(self)@,
            ),
    {
        let ghost orig = self.results@;
        let h = result.backend.handle;
        let ghost pred = live_except_fn(now, self.max_age_ms, h);
        self.retain_keep(KeepRule::LiveExcept { now, handle: h });
        proof {
            lemma_filter_distinct(orig, pred);
            orig.lemma_filter_len(pred);
        }
        self.results.push(result);
        let ghost appended = orig.filter(pred).push(result);
        proof {
            assert(self.results@ == appended);
            assert forall|i: int, j: int|
                0 <= i < j < appended.len() implies appended[i].backend.handle
                != appended[j].backend.handle by {
                if j == appended.len() - 1 {
                    orig.lemma_filter_pred(pred, i);
                }
            }
        }
        self.recompute_max_rif();
        if self.results.len() > self.capacity {
            let t = threshold_exec(self.max_rif);
            let w = find_evict_index(&self.results, t);
            self.results.remove(w);
            proof {
                lemma_remove_distinct(appended, w as int);
            }
            self.recompute_max_rif();
        }
    }

    /// Select a backend by the HCL rule: prune spent and stale samples,
    /// and from what is left pick the cold sample of least latency, or,
    /// when nothing is cold, the sample of least RIF; count one use on
    /// the chosen sample. Returns nothing when no live sample remains.
    pub fn find_best(&mut self, now: u64) -> (r: Option<Backend>)
        requires
            old(self).wf(),
        ensures
            final(self).wf(),
            final(self).capacity_spec() == old(self).capacity_spec(),
            final(self).max_age_spec() == old(self).max_age_spec(),
            ({
                let pruned = old(self)@.filter(live_fn(now, old(self).max_age_spec()));
                match r {
                    Option::None => final(self)@ == pruned && pruned.len() == 0,
                    Option::Some(b) => exists|i: int|
                        {
                            &&& #[trigger] hcl_choice(
                                pruned,
                                hot_cold_threshold(max_rif_of(pruned)),
                                i,
                            )
                            &&& b@ == pruned[i].backend@
                            &&& final(self)@ == pruned.update(i, with_use(pruned[i]))
                        },
                }
            }),
            r is Some <==> old(self)@.filter(live_fn(now, old(self).max_age_spec())).len() > 0,
    {
        let ghost orig = self.results@;
        let ghost pred = live_fn(now, self.max_age_ms);
        self.retain_keep(KeepRule::Live { now });
        proof {
            lemma_filter_distinct(orig, pred);
        }
        self.recompute_max_rif();
        if self.results.len() == 0 {
            return None;
        }
        let t = threshold_exec(self.max_rif);
        let idx = find_hcl_index(&self.results, t);
        let ghost pruned = self.results@;
        let mut p = self.results.remove(idx);
        let b = p.backend.duplicate();
        proof {
            orig.lemma_filter_pred(pred, idx as int);
            assert(pred(pruned[idx as int]));
        }
        p.used_count = p.used_count + 1;
        self.results.insert(idx, p);
        proof {
            assert(self.results@ =~= pruned.update(idx as int, with_use(pruned[idx as int])));
            assert forall|i: int, j: int|
                0 <= i < j < self.results@.len() implies self.results@[i].backend.handle
                != self.results@[j].backend.handle by {
                assert(pruned[i].backend.handle != pruned[j].backend.handle);
            }
            lemma_max_rif_pointwise(self.results@, pruned);
            assert(pruned == old(self)@.filter(live_fn(now, old(self).max_age_spec())));
            assert(self.max_rif == max_rif_of(pruned));
            assert(t as int == hot_cold_threshold(max_rif_of(pruned)));
            assert(hcl_choice(pruned, hot_cold_threshold(max_rif_of(pruned)), idx as int));
            assert(b@ == pruned[idx as int].backend@);
            assert(self.results@ == pruned.update(idx as int, with_use(pruned[idx as int])));
        }
        Some(b)
    }

    /// Drop every sample that belongs to the given backend.
    pub fn remove_backend(&mut self, backend: Backend)
        requires
            old(self).wf(),
        ensures
            final(self).wf(),
            final(self).capacity_spec() == old(self).capacity_spec(),
            final(self).max_age_spec() == old(self).max_age_spec(),
            final(self)@ == old(self)@.filter(not_handle_fn(backend@.handle)),
    {
        self.purge_handle(backend.handle);
    }

    /// Drop every sample whose backend carries this handle.
    pub(crate) fn purge_handle(&mut self, handle: u64)
        requires
            old(self).wf(),
        ensures
            final(self).wf(),
            final(self).capacity_spec() == old(self).capacity_spec(),
            final(self).max_age_spec() == old(self).max_age_spec(),
            final(self)@ == old(self)@.filter(not_handle_fn(handle)),
    {
        let ghost orig = self.results@;
        let ghost pred = not_handle_fn(handle);
        self.retain_keep(KeepRule::NotHandle { handle });
        proof {
            lemma_filter_distinct(orig, pred);
            orig.lemma_filter_len(pred);
        }
        self.recompute_max_rif();
    }

    /// Drop every stale sample; spent samples stay.
    pub fn remove_stale(&mut self, now: u64)
        requires
            old(self).wf(),
        ensures
            final(self).wf(),
            final(self).capacity_spec() == old(self).capacity_spec(),
            final(self).max_age_spec() == old(self).max_age_spec(),
            final(self)@ == old(self)@.filter(fresh_fn(now, old(self).max_age_spec())),
    {
        let ghost orig = self.results@;
        let ghost pred = fresh_fn(now, self.max_age_ms);
        self.retain_keep(KeepRule::Fresh { now });
        proof {
            lemma_filter_distinct(orig, pred);
            orig.lemma_filter_len(pred);
        }
        self.recompute_max_rif();
    }

    /// Whether the table holds any sample at all, stale or not.
    pub fn has_probes(&self) -> (r: bool)
        ensures
            r == (self@.len() > 0),
    {
        self.results.len() > 0
    }

    /// How many samples the table holds.
    pub fn len(&self) -> (n: usize)
        ensures
            n == self@.len(),
    {
        self.results.len()
    }

    /// Prune stale samples, then report whether the table is at least
    /// half full.
    pub fn has_enough_probes(&mut self, now: u64) -> (r: bool)
        requires
            old(self).wf(),
        ensures
            final(self).wf(),
            final(self).capacity_spec() == old(self).capacity_spec(),
            final(self).max_age_spec() == old(self).max_age_spec(),
            final(self)@ == old(self)@.filter(fresh_fn(now, old(self).max_age_spec())),
            r == (final(self)@.len() >= old(self).capacity_spec() / 2),
    {
        self.remove_stale(now);
        self.results.len() >= self.capacity / 2
    }

    /// The RIF of each sample, in table order.
    #[verifier::loop_isolation(false)]
    pub fn rif_values(&self) -> (r: Vec<u64>)
        ensures
            r@ == rifs_of(self@),
    {
        let mut r: Vec<u64> = Vec::new();
        let mut i: usize = 0;
        while i < self.results.len()
            invariant
                0 <= i <= self.results@.len(),
                r@ =~= rifs_of(self.results@).take(i as int),
            decreases self.results@.len() - i,
        {
            r.push(self.results[i].rif);
            proof {
                assert(r@ =~= rifs_of(self.results@).take(i as int + 1));
            }
            i = i + 1;
        }
        proof {
            assert(rifs_of(self.results@).take(self.results@.len() as int) =~= rifs_of(
                self.results@,
            ));
        }
        r
    }

    /// The latency estimate of each sample, in table order.
    #[verifier::loop_isolation(false)]
    pub fn latency_values(&self) -> (r: Vec<u64>)
        ensures
            r@ == latencies_of(self@),
    {
        let mut r: Vec<u64> = Vec::new();
        let mut i: usize = 0;
        while i < self.results.len()
            invariant
                0 <= i <= self.results@.len(),
                r@ =~= latencies_of(self.results@).take(i as int),
            decreases self.results@.len() - i,
        {
            r.push(self.results[i].est_latency);
            proof {
                assert(r@ =~= latencies_of(self.results@).take(i as int + 1));
            }
            i = i + 1;
        }
        proof {
            assert(latencies_of(self.results@).take(self.results@.len() as int) =~= latencies_of(
                self.results@,
            ));
        }
        r
    }

    /// A human-readable listing of the current samples, for
    /// diagnostics: the rendered line of every sample, in table order.
    #[verifier::loop_isolation(false)]
    pub fn display_results(&self, now: u64) -> (r: Option<String>)
        ensures
            r matches Some(s) && s@ == display_of(self@, now),
    {
        let mut out = String::new();
        let mut i: usize = 0;
        while i < self.results.len()
            invariant
                i <= self.results@.len(),
                out@ == display_of(self.results@.take(i as int), now),
            decreases self.results@.len() - i,
        {
            let p = &self.results[i];
            let age_secs: u64 = if now <= p.timestamp {
                0
            } else {
                (now - p.timestamp) / 1000
            };
            let line = format_probe_line(i, p, age_secs);
            out.append(line.as_str());
            proof {
                let taken = self.results@.take(i as int + 1);
                assert(taken.drop_last() =~= self.results@.take(i as int));
                assert(taken.last() == self.results@[i as int]);
                assert(age_secs == age_secs_at(self.results@[i as int], now));
            }
            i = i + 1;
        }
        proof {
            assert(self.results@.take(self.results@.len() as int) =~= self.results@);
        }
        Some(out)
    }
}

/// Law: at every observable moment the table holds at most its capacity
/// of samples, and no two of them share a backend identity.
pub proof fn lemma_table_invariant(t: &ProbeTable)
    requires
        t.wf(),
    ensures
        t@.len() <= t.capacity_spec(),
        distinct_handles(t@),
{
}

/// Law: a sample that survives pruning — and hence the only kind
/// selection can return — is live: its use count is below the bound and
/// its age is within the window.
pub proof fn lemma_selected_sample_live(s: Seq<ProbeResult>, now: u64, max_age_ms: u64, i: int)
    requires
        0 <= i < s.filter(live_fn(now, max_age_ms)).len(),
    ensures
        s.filter(live_fn(now, max_age_ms))[i].used_count < MAX_USES_BEFORE_EXPIRE,
        now <= s.filter(live_fn(now, max_age_ms))[i].timestamp + max_age_ms,
{
    s.lemma_filter_pred(live_fn(now, max_age_ms), i);
}

/// Law: when at least one sample is at or below the hot/cold threshold,
/// the HCL choice is such a sample and its latency is least among them.
pub proof fn lemma_hcl_prefers_cold(s: Seq<ProbeResult>, i: int)
    requires
        hcl_choice(s, hot_cold_threshold(max_rif_of(s)), i),
        has_cold(s, hot_cold_threshold(max_rif_of(s))),
    ensures
        is_cold(s[i], hot_cold_threshold(max_rif_of(s))),
        forall|j: int|
            0 <= j < s.len() && is_cold(#[trigger] s[j], hot_cold_threshold(max_rif_of(s)))
                ==> s[i].est_latency <= s[j].est_latency,
{
}

/// Law: when every sample is above the hot/cold threshold, the HCL
/// choice has the least RIF.
pub proof fn lemma_hcl_hot_fallback(s: Seq<ProbeResult>, i: int)
    requires
        hcl_choice(s, hot_cold_threshold(max_rif_of(s)), i),
        forall|j: int|
            0 <= j < s.len() ==> is_hot(#[trigger] s[j], hot_cold_threshold(max_rif_of(s))),
    ensures
        forall|j: int| 0 <= j < s.len() ==> s[i].rif <= #[trigger] s[j].rif,
{
    let t = hot_cold_threshold(max_rif_of(s));
    if has_cold(s, t) {
        let w = choose|w: int| 0 <= w < s.len() && is_cold(#[trigger] s[w], t);
        assert(is_hot(s[w], t));
        assert(false);
    }
}

/// Relies on std's `format!` machinery to render one sample as text
/// for diagnostics; the rendering depends on its arguments alone, so
/// its result is named `line_of` and nothing more is claimed of it.
#[verifier::external_body]
fn format_probe_line(idx: usize, p: &ProbeResult, age_secs: u64) -> (r: String)
    ensures
        r@ == line_of(idx as int, *p, age_secs),
{
    let a = &p.backend.address;
    format!(
        "probe[{}]: backend={} ({}.{}.{}.{}:{}) in_flight={}, latency={}, used={}, age={}\n",
        idx, p.backend.name, a.ip0, a.ip1, a.ip2, a.ip3, a.port,
        p.rif, p.est_latency, p.used_count, age_secs,
    )
}

} // verus!
