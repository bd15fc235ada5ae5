//! Insertion sorts used by the analysis: observations by time, and plain
//! values for quantile statistics.

use vstd::prelude::*;
use vstd::seq_lib::{lemma_multiset_commutative, to_multiset_build};
use crate::models::Observation;

verus! {

/// Observation times never decrease along the sequence.
pub open spec fn sorted_by_time(s: Seq<Observation>) -> bool {
    forall|i: int, j: int| 0 <= i <= j < s.len() ==> #[trigger] s[i].time <= #[trigger] s[j].time
}

/// Values never decrease along the sequence.
pub open spec fn sorted_vals(s: Seq<i128>) -> bool {
    forall|i: int, j: int| 0 <= i <= j < s.len() ==> #[trigger] s[i] <= #[trigger] s[j]
}

/// Sort observations by time (insertion sort).
pub fn sort_observations(obs: &Vec<Observation>) -> (r: Vec<Observation>)
    ensures
        sorted_by_time(r@),
        r@.to_multiset() == obs@.to_multiset(),
        r@.len() == obs@.len(),
{
    let mut out: Vec<Observation> = Vec::new();
    let mut i: usize = 0;
    proof {
        assert(obs@.take(0) =~= Seq::<Observation>::empty());
        assert(out@.to_multiset() =~= obs@.take(0).to_multiset());
    }
    while i < obs.len()
        invariant
            0 <= i <= obs@.len(),
            sorted_by_time(out@),
            out@.to_multiset() == obs@.take(i as int).to_multiset(),
            out@.len() == i,
        decreases obs@.len() - i,
    {
        let o = obs[i];
        let mut j: usize = out.len();
        while j > 0 && out[j - 1].time > o.time
            invariant
                0 <= j <= out@.len(),
                sorted_by_time(out@),
                forall|k: int| j <= k < out@.len() ==> (#[trigger] out@[k]).time > o.time,
            decreases j,
        {
            j = j - 1;
        }
        let ghost pre = out@;
        out.insert(j, o);
        proof {
            let s = pre.insert(j as int, o);
            assert(out@ == s);
            assert(s =~= pre.take(j as int) + seq![o] + pre.skip(j as int));
            assert(forall|k: int| 0 <= k < j ==> #[trigger] s[k] == pre[k]);
            assert(s[j as int] == o);
            assert(forall|k: int| j < k < s.len() ==> #[trigger] s[k] == pre[k - 1]);
            assert forall|p: int, q: int| 0 <= p <= q < s.len() implies (#[trigger] s[p]).time <= (
            #[trigger] s[q]).time by {
                if p < j {
                    assert(s[p] == pre[p]);
                }
                if q < j {
                    assert(s[q] == pre[q]);
                }
                if p > j {
                    assert(s[p] == pre[p - 1]);
                }
                if q > j {
                    assert(s[q] == pre[q - 1]);
                }
                if p < j && q == j {
                    assert(pre[p].time <= pre[j - 1].time);
                }
            }
            lemma_insert_multiset(pre, j as int, o);
            to_multiset_build(pre, o);
            to_multiset_build(obs@.take(i as int), o);
            assert(obs@.take(i as int + 1) =~= obs@.take(i as int).push(o));
            assert(out@.to_multiset() =~= obs@.take(i as int + 1).to_multiset());
        }
        i = i + 1;
    }
    proof {
        assert(obs@.take(obs@.len() as int) =~= obs@);
    }
    out
}

/// Inserting an element anywhere gives the same multiset as pushing it.
proof fn lemma_insert_multiset(s: Seq<Observation>, j: int, o: Observation)
    requires
        0 <= j <= s.len(),
    ensures
        s.insert(j, o).to_multiset() == s.push(o).to_multiset(),
{
    let left = s.take(j);
    let right = s.skip(j);
    assert(s.insert(j, o) =~= left + seq![o] + right);
    assert(s =~= left + right);
    assert(s.push(o) =~= (left + right) + seq![o]);
    lemma_multiset_commutative(left + seq![o], right);
    lemma_multiset_commutative(left, seq![o]);
    lemma_multiset_commutative(left, right);
    lemma_multiset_commutative(left + right, seq![o]);
    assert(s.insert(j, o).to_multiset() =~= s.push(o).to_multiset());
}

/// Sort plain values ascending (insertion sort).
pub fn sort_values(vals: &Vec<i128>) -> (r: Vec<i128>)
    ensures
        sorted_vals(r@),
        r@.to_multiset() == vals@.to_multiset(),
        r@.len() == vals@.len(),
{
    let mut out: Vec<i128> = Vec::new();
    let mut i: usize = 0;
    proof {
        assert(vals@.take(0) =~= Seq::<i128>::empty());
        assert(out@.to_multiset() =~= vals@.take(0).to_multiset());
    }
    while i < vals.len()
        invariant
            0 <= i <= vals@.len(),
            sorted_vals(out@),
            out@.to_multiset() == vals@.take(i as int).to_multiset(),
            out@.len() == i,
        decreases vals@.len() - i,
    {
        let v = vals[i];
        let mut j: usize = out.len();
        while j > 0 && out[j - 1] > v
            invariant
                0 <= j <= out@.len(),
                sorted_vals(out@),
                forall|k: int| j <= k < out@.len() ==> #[trigger] out@[k] > v,
            decreases j,
        {
            j = j - 1;
        }
        let ghost pre = out@;
        out.insert(j, v);
        proof {
            let s = pre.insert(j as int, v);
            assert(out@ == s);
            assert(s =~= pre.take(j as int) + seq![v] + pre.skip(j as int));
            assert(forall|k: int| 0 <= k < j ==> #[trigger] s[k] == pre[k]);
            assert(s[j as int] == v);
            assert(forall|k: int| j < k < s.len() ==> #[trigger] s[k] == pre[k - 1]);
            assert forall|p: int, q: int| 0 <= p <= q < s.len() implies #[trigger] s[p]
                <= #[trigger] s[q] by {
                if p < j {
                    assert(s[p] == pre[p]);
                }
                if q < j {
                    assert(s[q] == pre[q]);
                }
                if p > j {
                    assert(s[p] == pre[p - 1]);
                }
                if q > j {
                    assert(s[q] == pre[q - 1]);
                }
                if p < j && q == j {
                    assert(pre[p] <= pre[j - 1]);
                }
            }
            lemma_insert_multiset_vals(pre, j as int, v);
            to_multiset_build(pre, v);
            to_multiset_build(vals@.take(i as int), v);
            assert(vals@.take(i as int + 1) =~= vals@.take(i as int).push(v));
            assert(out@.to_multiset() =~= vals@.take(i as int + 1).to_multiset());
        }
        i = i + 1;
    }
    proof {
        assert(vals@.take(vals@.len() as int) =~= vals@);
    }
    out
}

proof fn lemma_insert_multiset_vals(s: Seq<i128>, j: int, v: i128)
    requires
        0 <= j <= s.len(),
    ensures
        s.insert(j, v).to_multiset() == s.push(v).to_multiset(),
{
    let left = s.take(j);
    let right = s.skip(j);
    assert(s.insert(j, v) =~= left + seq![v] + right);
    assert(s =~= left + right);
    assert(s.push(v) =~= (left + right) + seq![v]);
    lemma_multiset_commutative(left + seq![v], right);
    lemma_multiset_commutative(left, seq![v]);
    lemma_multiset_commutative(left, right);
    lemma_multiset_commutative(left + right, seq![v]);
    assert(s.insert(j, v).to_multiset() =~= s.push(v).to_multiset());
}

} // verus!
