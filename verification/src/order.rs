//! Ordering helpers shared by the summary computations: a verified
//! ascending sort and the permille rank it is read at.

use vstd::prelude::*;
use vstd::multiset::Multiset;

verus! {

broadcast use vstd::seq_lib::group_to_multiset_ensures;

/// The sequence never decreases.
pub open spec fn is_sorted(s: Seq<u64>) -> bool {
    forall|i: int, j: int| 0 <= i < j < s.len() ==> s[i] <= s[j]
}

/// The index a permille rank denotes in a sorted run of `len` values:
/// `len * permille / 1000`, clamped to the last index.
pub open spec fn rank_index(len: int, permille: int) -> int {
    if len * permille / 1000 < len {
        len * permille / 1000
    } else {
        len - 1
    }
}

/// The index of the least element of a non-empty vector (the first
/// one, on ties).
#[verifier::loop_isolation(false)]
fn min_index(v: &Vec<u64>) -> (r: usize)
    requires
        v@.len() > 0,
    ensures
        r < v@.len(),
        forall|j: int| 0 <= j < v@.len() ==> v@[r as int] <= #[trigger] v@[j],
{
    let mut best: usize = 0;
    let mut i: usize = 1;
    while i < v.len()
        invariant
            1 <= i <= v@.len(),
            0 <= best < i,
            forall|j: int| 0 <= j < i ==> v@[best as int] <= #[trigger] v@[j],
        decreases v@.len() - i,
    {
        if v[i] < v[best] {
            best = i;
        }
        i = i + 1;
    }
    best
}

/// The same values in non-decreasing order.
#[verifier::loop_isolation(false)]
pub fn sort_ascending(values: Vec<u64>) -> (r: Vec<u64>)
    ensures
        is_sorted(r@),
        r@.to_multiset() == values@.to_multiset(),
{
    let mut work = values;
    let ghost all = work@.to_multiset();
    let mut out: Vec<u64> = Vec::new();
    proof {
        assert(out@.to_multiset() =~= Multiset::<u64>::empty());
        assert(out@.to_multiset().add(work@.to_multiset()) =~= all);
    }
    while work.len() > 0
        invariant
            is_sorted(out@),
            out@.to_multiset().add(work@.to_multiset()) =~= all,
            forall|a: int, b: int|
                0 <= a < out@.len() && 0 <= b < work@.len() ==> #[trigger] out@[a]
                    <= #[trigger] work@[b],
        decreases work@.len(),
    {
        let m = min_index(&work);
        let ghost pre = work@;
        let x = work.remove(m);
        out.push(x);
        proof {
            assert(out@.to_multiset().add(work@.to_multiset()) =~= all);
            assert(is_sorted(out@)) by {
                assert(forall|a: int| 0 <= a < out@.len() - 1 ==> #[trigger] out@[a] <= x);
            }
            assert forall|a: int, b: int|
                0 <= a < out@.len() && 0 <= b < work@.len() implies #[trigger] out@[a]
                <= #[trigger] work@[b] by {
                let b0 = if b < m {
                    b
                } else {
                    b + 1
                };
                assert(work@[b] == pre[b0]);
            }
        }
    }
    proof {
        assert(work@.to_multiset() =~= Multiset::<u64>::empty());
        assert(out@.to_multiset() =~= all);
    }
    out
}

/// Read a sorted run at a permille rank; 0 when the run is empty.
pub fn value_at_rank(sorted: &Vec<u64>, permille: u64) -> (r: u64)
    requires
        permille <= 1000,
    ensures
        sorted@.len() == 0 ==> r == 0,
        sorted@.len() > 0 ==> r == sorted@[rank_index(sorted@.len() as int, permille as int)],
{
    let n = sorted.len();
    if n == 0 {
        return 0;
    }
    proof {
        assert((n as int) * (permille as int) <= (usize::MAX as int) * 1000) by (nonlinear_arith)
            requires
                n <= usize::MAX,
                permille <= 1000,
        ;
        assert((n as int) * (permille as int) / 1000 <= n as int) by (nonlinear_arith)
            requires
                permille <= 1000,
                n >= 0,
        ;
        assert((n as int) * (permille as int) / 1000 >= 0) by (nonlinear_arith)
            requires
                permille >= 0,
                n >= 0,
        ;
    }
    let wide: u128 = (n as u128) * (permille as u128) / 1000;
    let idx_raw: usize = wide as usize;
    let idx: usize = if idx_raw < n {
        idx_raw
    } else {
        n - 1
    };
    proof {
        assert(idx as int == rank_index(n as int, permille as int));
    }
    sorted[idx]
}

} // verus!
