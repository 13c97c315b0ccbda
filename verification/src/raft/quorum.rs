use vstd::prelude::*;
use crate::raft::model::{holders_at_least, RaftState};
use crate::raft::state::NodeId;
use crate::raft::RaftNode;
use vstd::std_specs::iter::IteratorSpec;

verus! {

broadcast use vstd::std_specs::hash::group_hash_axioms;

/// Taking one more element of a sequence without duplicates adds one new element to the
/// set of those taken.
proof fn lemma_take_one_more(ks: Seq<NodeId>, j: int)
    requires
        ks.no_duplicates(),
        0 <= j < ks.len(),
    ensures
        ks.take(j + 1).to_set() == ks.take(j).to_set().insert(ks[j]),
        !ks.take(j).to_set().contains(ks[j]),
{
    assert(ks.take(j + 1) =~= ks.take(j).push(ks[j]));
    assert(ks.take(j + 1).to_set() =~= ks.take(j).to_set().insert(ks[j])) by {
        assert forall|x: NodeId| ks.take(j + 1).to_set().contains(x) <==> ks.take(j).to_set().insert(
            ks[j],
        ).contains(x) by {
            if ks.take(j + 1).contains(x) {
                let i = choose|i: int| 0 <= i < j + 1 && #[trigger] ks.take(j + 1)[i] == x;
                if i < j {
                    assert(ks.take(j)[i] == x);
                }
            }
            if ks.take(j).contains(x) {
                let i = choose|i: int| 0 <= i < j && #[trigger] ks.take(j)[i] == x;
                assert(ks.take(j + 1)[i] == x);
            }
            if x == ks[j] {
                assert(ks.take(j + 1)[j] == x);
            }
        }
    }
    if ks.take(j).to_set().contains(ks[j]) {
        let i = choose|i: int| 0 <= i < j && #[trigger] ks.take(j)[i] == ks[j];
        assert(ks[i] == ks[j]);
    }
}

/// Adding an element that is new to a finite set adds one to the count of its members
/// that satisfy `f` exactly when the new element does.
pub(crate) proof fn lemma_filter_insert_len(s: Set<NodeId>, x: NodeId, f: spec_fn(NodeId) -> bool)
    requires
        s.finite(),
        !s.contains(x),
    ensures
        s.insert(x).filter(f).len() == s.filter(f).len() + if f(x) { 1nat } else { 0nat },
{
    s.lemma_len_filter(f);
    if f(x) {
        assert(s.insert(x).filter(f) =~= s.filter(f).insert(x));
    } else {
        assert(s.insert(x).filter(f) =~= s.filter(f));
    }
}

/// The keys of `m`, each once, in the map's iteration order.
fn collect_keys(m: &std::collections::HashMap<NodeId, u64>) -> (r: Vec<NodeId>)
    ensures
        r@.to_set() == m@.dom(),
        r@.no_duplicates(),
{
    let ghost ks = vstd::std_specs::hash::spec_keys_iter(m).remaining();
    let mut out: Vec<NodeId> = Vec::new();
    for k in it: m.keys()
        invariant
            it.seq() == ks,
            out@.len() == it.index(),
            forall|j: int| 0 <= j < it.index() ==> out@[j] == *ks[j],
    {
        out.push(*k);
    }
    proof {
        assert(out@ =~= ks.unref());
    }
    out
}

/// The number of keys of `m` whose value is at least `v`; `keys` lists the keys of `m`.
fn count_holders(m: &std::collections::HashMap<NodeId, u64>, keys: &Vec<NodeId>, v: u64) -> (c: usize)
    requires
        keys@.to_set() == m@.dom(),
        keys@.no_duplicates(),
    ensures
        c == holders_at_least(m@, v).len(),
{
    broadcast use vstd::seq_lib::seq_to_set_is_finite;
    let ghost f = |k: NodeId| m@[k] >= v;
    let mut c: usize = 0;
    let mut j: usize = 0;
    assert(keys@.take(0).to_set().filter(f) =~= Set::<NodeId>::empty());
    while j < keys.len()
        invariant
            j <= keys.len(),
            keys@.to_set() == m@.dom(),
            keys@.no_duplicates(),
            f == (|k: NodeId| m@[k] >= v),
            c == keys@.take(j as int).to_set().filter(f).len(),
            c <= j,
        decreases keys.len() - j,
    {
        let k = keys[j];
        proof {
            lemma_take_one_more(keys@, j as int);
            lemma_filter_insert_len(keys@.take(j as int).to_set(), k, f);
            assert(keys@.to_set().contains(k));
        }
        let x = match m.get(&k) {
            Some(x) => *x,
            None => 0,
        };
        if x >= v {
            c = c + 1;
        }
        j = j + 1;
    }
    assert(keys@.take(keys@.len() as int) =~= keys@);
    c
}

/// The largest index that a quorum holds is unique: any `n` that is one is the one
/// `quorum_index` names.
pub proof fn lemma_quorum_index_unique(s: RaftState, n: u64)
    requires
        s.is_quorum_index(n),
    ensures
        s.quorum_index() == n,
{
    let q = s.quorum_index();
    assert(s.is_quorum_index(q));
    assert(s.quorum_candidate(n));
    assert(s.quorum_candidate(q));
}

/// While the peers known to the leader are at least as many as the replicas beyond the
/// leader that a quorum needs, a largest index that a quorum holds exists.
pub proof fn lemma_quorum_index_exists(s: RaftState)
    requires
        s.match_index.dom().finite(),
        s.match_index.dom().len() >= s.quorum_rest(),
    ensures
        exists|n: u64| s.is_quorum_index(n),
{
    let m = s.match_index;
    let last = s.last_log_index();
    let leq = |a: u64, b: u64| a <= b;
    assert(vstd::relations::total_ordering(leq));
    let vals = m.dom().map(|k: NodeId| m[k]).insert(last);
    m.dom().lemma_map_finite(|k: NodeId| m[k]);
    assert(vals.finite());
    assert(vals.contains(last));
    vals.find_unique_minimal_ensures(leq);
    let mn = vals.find_unique_minimal(leq);
    assert forall|x: u64| vals.contains(x) implies mn <= x by {
        assert(leq(x, mn) ==> leq(mn, x));
    }
    assert forall|k: NodeId| m.dom().contains(k) implies mn <= m[k] by {
        assert(vals.contains(m[k]));
    }
    assert(holders_at_least(m, mn) =~= m.dom());
    assert(s.replicas_at_least(mn) >= s.quorum_rest() + 1);
    let f = |v: u64| s.replicas_at_least(v) >= s.quorum_rest() + 1;
    let cands = vals.filter(f);
    vals.lemma_len_filter(f);
    assert(cands.contains(mn));
    assert(cands.len() > 0);
    cands.find_unique_maximal_ensures(leq);
    let mx = cands.find_unique_maximal(leq);
    assert(cands.contains(mx));
    assert forall|v: u64| s.quorum_candidate(v) implies vals.contains(v) by {
        if v != last {
            let k = choose|k: NodeId| m.dom().contains(k) && #[trigger] m[k] == v;
            assert(m.dom().map(|k: NodeId| m[k]).contains(m[k]));
        }
    }
    assert(s.quorum_candidate(mx)) by {
        if mx != last {
            assert(m.dom().map(|k: NodeId| m[k]).contains(mx));
            let k = choose|k: NodeId| m.dom().contains(k) && m[k] == mx;
            assert(m.dom().contains(k) && m[k] == mx);
        }
    }
    assert forall|v: u64| #[trigger] s.quorum_candidate(v) implies v <= mx by {
        assert(cands.contains(v));
        assert(leq(mx, v) ==> leq(v, mx));
    }
    assert(s.is_quorum_index(mx));
}

impl RaftNode {
    /// The largest index that a quorum holds: the largest value among the peers' match
    /// indices and the leader's last log index that at least `quorum_rest() + 1` of these
    /// replicas have reached.
    pub(crate) fn quorum_match_index(&self) -> (n: u64)
        requires
            self@.match_index.dom().len() >= self@.quorum_rest(),
            self@.within_limits(),
        ensures
            self@.is_quorum_index(n),
    {
        broadcast use vstd::seq_lib::seq_to_set_is_finite;
        let m = &self.volatile.match_index;
        let keys = collect_keys(m);
        let last = self.last_log_index();
        let needed: usize = (self.peers.len() + 1) / 2 + 1;
        let ghost s = self@;
        let own: usize = 1;
        let c_last = count_holders(m, &keys, last);
        let mut best: Option<u64> = None;
        if c_last >= needed - own {
            best = Some(last);
        }
        let ghost mut mn: u64 = last;
        let mut i: usize = 0;
        while i < keys.len()
            invariant
                s == self@,
                m@ == s.match_index,
                i <= keys.len(),
                keys@.to_set() == s.match_index.dom(),
                keys@.no_duplicates(),
                last == s.last_log_index(),
                needed == s.quorum_rest() + 1,
                best matches Some(b) ==> s.quorum_candidate(b),
                s.quorum_candidate(last) ==> (best matches Some(b) && last <= b),
                forall|j: int| 0 <= j < i && #[trigger] s.quorum_candidate(s.match_index[keys@[j]])
                    ==> (best matches Some(b) && s.match_index[keys@[j]] <= b),
                mn <= last,
                forall|j: int| 0 <= j < i ==> mn <= #[trigger] s.match_index[keys@[j]],
                mn == last || exists|j: int| 0 <= j < i && #[trigger] s.match_index[keys@[j]] == mn,
            decreases keys.len() - i,
        {
            let k = keys[i];
            proof {
                assert(keys@.to_set().contains(k));
            }
            let v = match m.get(&k) {
                Some(x) => *x,
                None => 0,
            };
            let c = count_holders(m, &keys, v);
            let mine: usize = if last >= v { 1 } else { 0 };
            proof {
                assert(s.match_index.dom().contains(k));
                assert(s.match_index[keys@[i as int]] == v);
            }
            if c >= needed - mine {
                let better = match best {
                    None => true,
                    Some(b) => v > b,
                };
                if better {
                    best = Some(v);
                }
            }
            proof {
                if v < mn {
                    mn = v;
                }
            }
            i = i + 1;
        }
        proof {
            // Every match index and the last index are at least `mn`, so all replicas hold it.
            assert forall|k: NodeId| s.match_index.dom().contains(k) implies mn <= s.match_index[k] by {
                assert(keys@.to_set().contains(k));
                let j = choose|j: int| 0 <= j < keys@.len() && keys@[j] == k;
                assert(mn <= s.match_index[keys@[j]]);
            }
            assert(holders_at_least(s.match_index, mn) =~= s.match_index.dom());
            if mn != last {
                let j = choose|j: int| 0 <= j < keys@.len() && #[trigger] s.match_index[keys@[j]] == mn;
                assert(keys@.to_set().contains(keys@[j]));
                assert(s.match_index.dom().contains(keys@[j]));
            }
            assert(s.quorum_candidate(mn));
            if mn != last {
                let j = choose|j: int| 0 <= j < keys@.len() && #[trigger] s.match_index[keys@[j]] == mn;
                assert(s.quorum_candidate(s.match_index[keys@[j]]));
            }
            assert(best is Some);
            assert forall|v: u64| #[trigger] s.quorum_candidate(v) implies v <= best->0 by {
                if v != last {
                    let k = choose|k: NodeId| s.match_index.dom().contains(k) && #[trigger] s.match_index[k] == v;
                    assert(keys@.to_set().contains(k));
                    let j = choose|j: int| 0 <= j < keys@.len() && keys@[j] == k;
                    assert(s.quorum_candidate(s.match_index[keys@[j]]));
                }
            }
        }
        best.unwrap()
    }

    /// A leader commits up to the largest index a quorum holds, if that index lies past
    /// the commit index and holds an entry of the current term.
    pub(crate) fn try_advance_commit_index(&mut self)
        requires
            old(self)@.match_index.dom().len() >= old(self)@.quorum_rest(),
            old(self)@.within_limits(),
        ensures
            final(self)@ == old(self)@.advance_commit(),
    {
        let n = self.quorum_match_index();
        proof {
            lemma_quorum_index_unique(self@, n);
        }
        if n > self.volatile.commit_index {
            let advance = match self.get_entry(n) {
                Some(e) => e.term == self.persistent.current_term,
                None => false,
            };
            if advance {
                self.volatile.commit_index = n;
            }
        }
    }
}

} // verus!
