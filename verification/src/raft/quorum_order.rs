use vstd::prelude::*;
use crate::raft::model::{holders_at_least, RaftState};
use crate::raft::quorum::{lemma_filter_insert_len, lemma_quorum_index_unique};
use crate::raft::state::NodeId;
use vstd::multiset::Multiset;

verus! {

broadcast use vstd::seq_lib::group_to_multiset_ensures;

/// How many elements of `s` are at least `v`.
pub open spec fn count_at_least(s: Seq<u64>, v: u64) -> nat
    decreases s.len(),
{
    if s.len() == 0 {
        0
    } else {
        count_at_least(s.drop_last(), v) + if s.last() >= v { 1nat } else { 0nat }
    }
}

/// Pushing an element onto a sequence adds it to the multiset of its elements, and so to
/// the count of those that pass `f` exactly when it passes.
proof fn lemma_multiset_filter_push(s: Seq<u64>, a: u64, f: spec_fn(u64) -> bool)
    ensures
        s.push(a).to_multiset().filter(f).len() == s.to_multiset().filter(f).len() + if f(a) { 1nat } else { 0nat },
{
    broadcast use vstd::multiset::group_multiset_axioms;
    let m = s.to_multiset();
    assert(s.push(a).to_multiset() =~= m.insert(a));
    if f(a) {
        assert(m.insert(a).filter(f) =~= m.filter(f).insert(a));
    } else {
        assert(m.insert(a).filter(f) =~= m.filter(f));
    }
}

/// The count of elements at least `v` depends only on the multiset of elements.
proof fn lemma_count_is_multiset_count(s: Seq<u64>, v: u64)
    ensures
        count_at_least(s, v) == s.to_multiset().filter(|x: u64| x >= v).len(),
    decreases s.len(),
{
    broadcast use vstd::multiset::group_multiset_axioms;
    if s.len() == 0 {
        assert(s.to_multiset().filter(|x: u64| x >= v) =~= Multiset::empty());
    } else {
        lemma_count_is_multiset_count(s.drop_last(), v);
        assert(s =~= s.drop_last().push(s.last()));
        lemma_multiset_filter_push(s.drop_last(), s.last(), |x: u64| x >= v);
    }
}

/// Listing the values of `m` once for each of its keys, the number of values at least
/// `v` is the number of keys that hold one.
proof fn lemma_listed_values_count(m: Map<NodeId, u64>, ks: Seq<NodeId>, v: u64)
    requires
        ks.no_duplicates(),
    ensures
        ks.map_values(|k: NodeId| m[k]).to_multiset().filter(|x: u64| x >= v).len()
            == ks.to_set().filter(|k: NodeId| m[k] >= v).len(),
    decreases ks.len(),
{
    broadcast use vstd::multiset::group_multiset_axioms;
    broadcast use vstd::seq_lib::seq_to_set_is_finite;
    let vals = ks.map_values(|k: NodeId| m[k]);
    if ks.len() == 0 {
        assert(vals.to_multiset().filter(|x: u64| x >= v) =~= Multiset::empty());
        assert(ks.to_set().filter(|k: NodeId| m[k] >= v) =~= Set::empty());
    } else {
        let init = ks.drop_last();
        let k = ks.last();
        assert(init.no_duplicates()) by {
            assert forall|i: int, j: int| 0 <= i < init.len() && 0 <= j < init.len() && i != j
                implies init[i] != init[j] by {
                assert(init[i] == ks[i] && init[j] == ks[j]);
            }
        }
        lemma_listed_values_count(m, init, v);
        assert(vals =~= init.map_values(|k: NodeId| m[k]).push(m[k]));
        lemma_multiset_filter_push(init.map_values(|k: NodeId| m[k]), m[k], |x: u64| x >= v);
        assert(ks =~= init.push(k));
        assert(ks.to_set() =~= init.to_set().insert(k)) by {
            assert forall|x: NodeId| ks.to_set().contains(x) <==> init.to_set().insert(k).contains(x) by {
                if ks.contains(x) {
                    let i = choose|i: int| 0 <= i < ks.len() && #[trigger] ks[i] == x;
                    if i < init.len() {
                        assert(init[i] == x);
                    }
                }
                if init.contains(x) {
                    let i = choose|i: int| 0 <= i < init.len() && #[trigger] init[i] == x;
                    assert(ks[i] == x);
                }
                if x == k {
                    assert(ks[ks.len() - 1] == x);
                }
            }
        }
        assert(!init.to_set().contains(k)) by {
            if init.contains(k) {
                let i = choose|i: int| 0 <= i < init.len() && #[trigger] init[i] == k;
                assert(ks[i] == ks[ks.len() - 1]);
            }
        }
        lemma_filter_insert_len(init.to_set(), k, |k: NodeId| m[k] >= v);
    }
}

/// When every element from position `p` on is at least `v`, at least `len - p` elements
/// are.
proof fn lemma_count_lower_bound(s: Seq<u64>, v: u64, p: int)
    requires
        0 <= p,
        forall|i: int| p <= i < s.len() ==> #[trigger] s[i] >= v,
    ensures
        count_at_least(s, v) >= s.len() - p,
    decreases s.len(),
{
    if s.len() > 0 {
        let init = s.drop_last();
        assert forall|i: int| p <= i < init.len() implies #[trigger] init[i] >= v by {
            assert(init[i] == s[i]);
        }
        lemma_count_lower_bound(init, v, p);
    }
}

/// When every element before position `q` is below `w`, at most `len - q` elements are
/// at least `w`.
proof fn lemma_count_upper_bound(s: Seq<u64>, w: u64, q: int)
    requires
        0 <= q <= s.len(),
        forall|i: int| 0 <= i < q ==> #[trigger] s[i] < w,
    ensures
        count_at_least(s, w) <= s.len() - q,
    decreases s.len(),
{
    if s.len() > 0 {
        let init = s.drop_last();
        let q2 = if q == s.len() { q - 1 } else { q };
        assert forall|i: int| 0 <= i < q2 implies #[trigger] init[i] < w by {
            assert(init[i] == s[i]);
        }
        lemma_count_upper_bound(init, w, q2);
        if q == s.len() {
            assert(s[s.len() - 1] < w);
        }
    }
}

/// The largest index that a quorum holds is what a leader finds by listing the match
/// index of each peer it knows and its own last log index, sorting the list in ascending
/// order, and taking the element `quorum_rest()` places before the end.
pub proof fn lemma_quorum_index_is_sorted_position(s: RaftState, ks: Seq<NodeId>, sorted: Seq<u64>)
    requires
        ks.no_duplicates(),
        ks.to_set() == s.match_index.dom(),
        ks.len() >= s.quorum_rest(),
        sorted.to_multiset() == ks.map_values(|k: NodeId| s.match_index[k]).push(
            s.last_log_index(),
        ).to_multiset(),
        forall|i: int, j: int| 0 <= i <= j < sorted.len() ==> sorted[i] <= sorted[j],
    ensures
        sorted.len() == ks.len() + 1,
        s.is_quorum_index(sorted[sorted.len() - 1 - s.quorum_rest()]),
        s.quorum_index() == sorted[sorted.len() - 1 - s.quorum_rest()],
{
    broadcast use vstd::multiset::group_multiset_axioms;
    let m = s.match_index;
    let last = s.last_log_index();
    let q = s.quorum_rest();
    let listed = ks.map_values(|k: NodeId| m[k]);
    let vals = listed.push(last);
    assert(sorted.to_multiset().len() == vals.to_multiset().len());
    assert(sorted.len() == vals.len());
    let len = sorted.len() as int;
    let p = len - 1 - q;
    let v = sorted[p];

    // The number of replicas holding an index is counted the same way over the sorted list.
    assert forall|w: u64| #[trigger] s.replicas_at_least(w) == count_at_least(sorted, w) by {
        lemma_count_is_multiset_count(sorted, w);
        lemma_multiset_filter_push(listed, last, |x: u64| x >= w);
        lemma_listed_values_count(m, ks, w);
        assert(holders_at_least(m, w) == ks.to_set().filter(|k: NodeId| m[k] >= w));
    }

    // `v` is a match index or the last index.
    assert(sorted.to_multiset().count(v) > 0);
    assert(vals.contains(v));
    if v != last {
        let i = choose|i: int| 0 <= i < vals.len() && #[trigger] vals[i] == v;
        assert(i < listed.len());
        assert(ks.to_set().contains(ks[i]));
        assert(m.dom().contains(ks[i]) && m[ks[i]] == v);
    }
    // At least `q + 1` replicas hold `v`.
    assert forall|i: int| p <= i < sorted.len() implies #[trigger] sorted[i] >= v by {}
    lemma_count_lower_bound(sorted, v, p);
    assert(s.replicas_at_least(v) >= q + 1);
    assert(s.quorum_candidate(v));
    // No larger index is held by `q + 1` replicas.
    assert forall|w: u64| #[trigger] s.quorum_candidate(w) implies w <= v by {
        if w > v {
            assert forall|i: int| 0 <= i < p + 1 implies #[trigger] sorted[i] < w by {}
            lemma_count_upper_bound(sorted, w, p + 1);
            assert(s.replicas_at_least(w) == count_at_least(sorted, w));
        }
    }
    assert(s.is_quorum_index(v));
    lemma_quorum_index_unique(s, v);
}

} // verus!
