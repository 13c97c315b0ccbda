use vstd::prelude::*;

verus! {

/// The status record a node reports to the cluster dashboard.
#[derive(Clone, Debug)]
pub struct NodeStatus {
    pub id: u64,
    pub role: String,
    pub term: u64,
    pub log_length: u64,
    pub commit_index: u64,
    pub last_applied: u64,
    pub alive: bool,
}

/// How the dashboard shows a node's row.
#[derive(Clone, Copy, Debug, PartialEq, Eq, Structural)]
pub enum RowStyle {
    /// Highlighted: the node leads.
    Leader,
    /// Marked: the node stands for election.
    Candidate,
    /// Marked as down.
    Dead,
    /// Plain.
    Normal,
}

/// The style of a node's row: by role first (leader, candidate), then by liveness.
pub open spec fn row_style_of(status: NodeStatus) -> RowStyle {
    if status.role@ == "Leader"@ {
        RowStyle::Leader
    } else if status.role@ == "Candidate"@ {
        RowStyle::Candidate
    } else if !status.alive {
        RowStyle::Dead
    } else {
        RowStyle::Normal
    }
}

/// Chooses how the dashboard shows `status`.
pub fn row_style(status: &NodeStatus) -> (r: RowStyle)
    ensures
        r == row_style_of(*status),
{
    let leader = "Leader".to_string();
    let candidate = "Candidate".to_string();
    if status.role == leader {
        RowStyle::Leader
    } else if status.role == candidate {
        RowStyle::Candidate
    } else if !status.alive {
        RowStyle::Dead
    } else {
        RowStyle::Normal
    }
}

/// The statuses are in ascending order of node id.
pub open spec fn ordered_by_id(s: Seq<NodeStatus>) -> bool {
    forall|i: int, j: int| 0 <= i <= j < s.len() ==> s[i].id <= s[j].id
}

/// The dashboard's rows in ascending order of node id: the same statuses, each as often
/// as given, sorted by id.
pub fn order_by_id(statuses: Vec<NodeStatus>) -> (r: Vec<NodeStatus>)
    ensures
        r@.to_multiset() == statuses@.to_multiset(),
        ordered_by_id(r@),
{
    broadcast use vstd::seq_lib::group_to_multiset_ensures;
    let ghost all = statuses@.to_multiset();
    let mut rest = statuses;
    let mut out: Vec<NodeStatus> = Vec::new();
    while rest.len() > 0
        invariant
            out@.to_multiset().add(rest@.to_multiset()) == all,
            ordered_by_id(out@),
            forall|i: int, j: int| 0 <= i < out@.len() && 0 <= j < rest@.len() ==> out@[i].id <= rest@[j].id,
        decreases rest.len(),
    {
        let mut min_i: usize = 0;
        let mut k: usize = 1;
        while k < rest.len()
            invariant
                0 < rest.len(),
                min_i < rest.len(),
                1 <= k <= rest.len(),
                forall|j: int| 0 <= j < k ==> rest@[min_i as int].id <= rest@[j].id,
            decreases rest.len() - k,
        {
            if rest[k].id < rest[min_i].id {
                min_i = k;
            }
            k = k + 1;
        }
        let ghost old_rest = rest@;
        let ghost old_out = out@;
        let x = rest.remove(min_i);
        proof {
            old_rest.to_multiset_ensures();
            old_out.to_multiset_ensures();
            assert(old_rest.remove(min_i as int).to_multiset() =~= old_rest.to_multiset().remove(x));
            assert(old_out.push(x).to_multiset() =~= old_out.to_multiset().insert(x));
            assert(old_rest.to_multiset().count(x) > 0) by {
                assert(old_rest.contains(x)) by { assert(old_rest[min_i as int] == x); }
            }
            assert(old_out.to_multiset().insert(x).add(old_rest.to_multiset().remove(x))
                =~= old_out.to_multiset().add(old_rest.to_multiset()));
            assert forall|j: int| 0 <= j < rest@.len() implies x.id <= #[trigger] rest@[j].id by {
                if j < min_i {
                    assert(rest@[j] == old_rest[j]);
                } else {
                    assert(rest@[j] == old_rest[j + 1]);
                }
            }
        }
        out.push(x);
        proof {
            assert forall|i: int, j: int| 0 <= i < out@.len() && 0 <= j < rest@.len() implies out@[i].id
                <= rest@[j].id by {
                if i < old_out.len() {
                    if j < min_i {
                        assert(rest@[j] == old_rest[j]);
                    } else {
                        assert(rest@[j] == old_rest[j + 1]);
                    }
                }
            }
            assert forall|i: int, j: int| 0 <= i <= j < out@.len() implies out@[i].id <= out@[j].id by {
                if j == out@.len() - 1 && i < j {
                    assert(old_out[i].id <= old_rest[min_i as int].id);
                }
            }
        }
    }
    assert(rest@.to_multiset() =~= vstd::multiset::Multiset::empty());
    assert(out@.to_multiset().add(vstd::multiset::Multiset::empty()) =~= out@.to_multiset());
    out
}

} // verus!
