//! How the shape of a plan decides what waits for what.

use vstd::prelude::*;

use crate::order::{
    ends, ends_are_inside, ends_in_parallel, ends_in_sequence, waits, waits_for_each,
    waits_in_parallel, waits_in_sequence, waits_stay_inside, work, work_of_first,
};
use crate::plan_nodes::PlanNode;

verus! {

/// Whether all positions of a set are below `high`.
pub open spec fn below(set: Set<int>, high: int) -> bool {
    forall|i: int| #[trigger] set.contains(i) ==> i < high
}

/// Whether one of some nodes waits for the node at position `i`.
pub open spec fn followed(waits: Seq<Set<int>>, i: int) -> bool {
    exists|k: int| 0 <= k < waits.len() && (#[trigger] waits[k]).contains(i)
}

/// Whether `ends` are exactly those of some nodes, of which the first has position `base`, that
/// none of them waits for.
pub open spec fn ends_unfollowed(ends: Set<int>, waits: Seq<Set<int>>, base: int) -> bool {
    forall|i: int| #[trigger]
        ends.contains(i) <==> base <= i < base + waits.len() && !followed(waits, i)
}

/// A node ends with exactly those of its work nodes that no other one of them waits for. Its first
/// work node waits for exactly what stands before the node.
pub proof fn a_node_ends_where_nothing_follows(node: PlanNode, base: int, before: Set<int>)
    requires
        work(node).len() > 0,
        below(before, base),
    ensures
        waits(node, base, before)[0] == before,
        ends_unfollowed(ends(node, base, before), waits(node, base, before), base),
    decreases node, 1int,
{
    let here = waits(node, base, before);
    match node {
        PlanNode::Sequence(sequence) => {
            a_sequence_ends_where_nothing_follows(
                sequence.nodes@,
                sequence.nodes@.len() as int,
                base,
                before,
            );
        },
        PlanNode::Parallel(parallel) => {
            nodes_side_by_side_end_where_nothing_follows(
                parallel.nodes@,
                parallel.nodes@.len() as int,
                base,
                before,
            );
        },
        PlanNode::Fetch(_) | PlanNode::Flatten(_) | PlanNode::Condition(_) => {
            assert forall|i: int| #[trigger]
                ends(node, base, before).contains(i) <==> base <= i < base + here.len()
                    && !followed(here, i) by {
                if followed(here, i) {
                    assert(before.contains(i));
                }
            }
        },
        PlanNode::Subscription(_) | PlanNode::Defer(_) => {},
    }
}

/// The first nodes of a sequence end where no node among them follows, and where they have no work,
/// with what stands before them.
pub proof fn a_sequence_ends_where_nothing_follows(
    nodes: Seq<PlanNode>,
    n: int,
    base: int,
    before: Set<int>,
)
    requires
        0 <= n <= nodes.len(),
        below(before, base),
    ensures
        waits_in_sequence(nodes, n, base, before).len() == work_of_first(nodes, n).len(),
        forall|k: int, w: int|
            0 <= k < work_of_first(nodes, n).len() && #[trigger] waits_in_sequence(
                nodes,
                n,
                base,
                before,
            )[k].contains(w) ==> w < base + work_of_first(nodes, n).len(),
        work_of_first(nodes, n).len() == 0 ==> ends_in_sequence(nodes, n, base, before) == before,
        work_of_first(nodes, n).len() > 0 ==> {
            &&& waits_in_sequence(nodes, n, base, before)[0] == before
            &&& ends_unfollowed(
                ends_in_sequence(nodes, n, base, before),
                waits_in_sequence(nodes, n, base, before),
                base,
            )
        },
    decreases nodes, n,
{
    if n > 0 {
        let created = work_of_first(nodes, n - 1).len();
        let mid = ends_in_sequence(nodes, n - 1, base, before);
        let earlier = waits_in_sequence(nodes, n - 1, base, before);
        let here = waits(nodes[n - 1], base + created, mid);
        let all = waits_in_sequence(nodes, n, base, before);
        let last = ends_in_sequence(nodes, n, base, before);
        a_sequence_ends_where_nothing_follows(nodes, n - 1, base, before);
        waits_for_each(nodes[n - 1], base + created, mid);
        assert(all == earlier + here);
        assert(last == ends(nodes[n - 1], base + created, mid));
        ends_are_inside(nodes[n - 1], base + created, mid);
        waits_stay_inside(nodes[n - 1], base + created, mid);
        assert(below(mid, base + created)) by {
            assert forall|i: int| #[trigger] mid.contains(i) implies i < base + created by {}
        }
        assert forall|k: int, w: int| 0 <= k < all.len() && #[trigger] all[k].contains(w) implies w
            < base + all.len() by {
            if k < created {
                assert(earlier[k].contains(w));
            } else {
                assert(here[k - created].contains(w));
            }
        }
        if work(nodes[n - 1]).len() == 0 {
            assert(all =~= earlier);
        } else {
            a_node_ends_where_nothing_follows(nodes[n - 1], base + created, mid);
            assert(all[created as int] == here[0]);
            if created > 0 {
                assert(all[0] == earlier[0]);
            }
            assert forall|i: int| #[trigger]
                last.contains(i) <==> base <= i < base + all.len() && !followed(all, i) by {
                lemma_followed_in_either(earlier, here, i);
                let _ = ends(nodes[n - 1], base + created, mid).contains(i);
                if i < base + created && !followed(earlier, i) && base <= i {
                    assert(mid.contains(i));
                    assert(here[0].contains(i));
                }
                if followed(earlier, i) {
                    let k = choose|k: int| 0 <= k < earlier.len() && (#[trigger] earlier[k]).contains(
                        i,
                    );
                    assert(earlier[k].contains(i));
                }
            }
        }
    }
}

/// Nodes side by side end where no node among them follows.
pub proof fn nodes_side_by_side_end_where_nothing_follows(
    nodes: Seq<PlanNode>,
    n: int,
    base: int,
    before: Set<int>,
)
    requires
        0 <= n <= nodes.len(),
        below(before, base),
    ensures
        waits_in_parallel(nodes, n, base, before).len() == work_of_first(nodes, n).len(),
        forall|k: int, w: int|
            0 <= k < work_of_first(nodes, n).len() && #[trigger] waits_in_parallel(
                nodes,
                n,
                base,
                before,
            )[k].contains(w) ==> before.contains(w) || base <= w < base + work_of_first(
                nodes,
                n,
            ).len(),
        work_of_first(nodes, n).len() > 0 ==> waits_in_parallel(nodes, n, base, before)[0] == before,
        ends_unfollowed(
            ends_in_parallel(nodes, n, base, before),
            waits_in_parallel(nodes, n, base, before),
            base,
        ),
    decreases nodes, n,
{
    if n > 0 {
        let created = work_of_first(nodes, n - 1).len();
        let earlier = waits_in_parallel(nodes, n - 1, base, before);
        let here = waits(nodes[n - 1], base + created, before);
        let all = waits_in_parallel(nodes, n, base, before);
        let first = ends_in_parallel(nodes, n - 1, base, before);
        let last = ends_in_parallel(nodes, n, base, before);
        nodes_side_by_side_end_where_nothing_follows(nodes, n - 1, base, before);
        waits_for_each(nodes[n - 1], base + created, before);
        waits_stay_inside(nodes[n - 1], base + created, before);
        assert(all == earlier + here);
        assert forall|k: int, w: int| 0 <= k < all.len() && #[trigger] all[k].contains(
            w,
        ) implies before.contains(w) || base <= w < base + all.len() by {
            if k < created {
                assert(earlier[k].contains(w));
            } else {
                assert(here[k - created].contains(w));
            }
        }
        if work(nodes[n - 1]).len() == 0 {
            assert(all =~= earlier);
            assert(last == first);
        } else {
            let more = ends(nodes[n - 1], base + created, before);
            a_node_ends_where_nothing_follows(nodes[n - 1], base + created, before);
            assert(last == first.union(more));
            assert(all[created as int] == here[0]);
            if created > 0 {
                assert(all[0] == earlier[0]);
            }
            assert forall|i: int| #[trigger]
                last.contains(i) <==> base <= i < base + all.len() && !followed(all, i) by {
                lemma_followed_in_either(earlier, here, i);
                let _ = first.contains(i) || more.contains(i);
                if followed(earlier, i) {
                    let k = choose|k: int| 0 <= k < earlier.len() && (#[trigger] earlier[k]).contains(
                        i,
                    );
                    assert(earlier[k].contains(i));
                }
                if followed(here, i) {
                    let k = choose|k: int| 0 <= k < here.len() && (#[trigger] here[k]).contains(i);
                    assert(here[k].contains(i));
                }
            }
        }
    }
}

proof fn lemma_followed_in_either(a: Seq<Set<int>>, b: Seq<Set<int>>, i: int)
    ensures
        followed(a + b, i) <==> followed(a, i) || followed(b, i),
{
    let all = a + b;
    if followed(a, i) {
        let k = choose|k: int| 0 <= k < a.len() && (#[trigger] a[k]).contains(i);
        assert(all[k].contains(i));
    }
    if followed(b, i) {
        let k = choose|k: int| 0 <= k < b.len() && (#[trigger] b[k]).contains(i);
        assert(all[a.len() + k].contains(i));
    }
    if followed(all, i) {
        let k = choose|k: int| 0 <= k < all.len() && (#[trigger] all[k]).contains(i);
        if k < a.len() {
            assert(a[k].contains(i));
        } else {
            assert(b[k - a.len()].contains(i));
        }
    }
}

/// Each node of a sequence waits as it would wait alone behind the ends of the nodes before it.
pub proof fn nodes_in_a_sequence_wait_for_those_before(
    nodes: Seq<PlanNode>,
    n: int,
    base: int,
    before: Set<int>,
    i: int,
    k: int,
)
    requires
        0 <= i < n <= nodes.len(),
        0 <= k < work(nodes[i]).len(),
        below(before, base),
    ensures
        work_of_first(nodes, i).len() + k < work_of_first(nodes, n).len(),
        waits_in_sequence(nodes, n, base, before)[work_of_first(nodes, i).len() + k] == waits(
            nodes[i],
            base + work_of_first(nodes, i).len(),
            ends_in_sequence(nodes, i, base, before),
        )[k],
    decreases n,
{
    let created = work_of_first(nodes, n - 1).len();
    let mid = ends_in_sequence(nodes, n - 1, base, before);
    a_sequence_ends_where_nothing_follows(nodes, n - 1, base, before);
    waits_for_each(nodes[n - 1], base + created, mid);
    assert(waits_in_sequence(nodes, n, base, before) == waits_in_sequence(
        nodes,
        n - 1,
        base,
        before,
    ) + waits(nodes[n - 1], base + created, mid));
    assert(work_of_first(nodes, n) == work_of_first(nodes, n - 1) + work(nodes[n - 1]));
    if i < n - 1 {
        nodes_in_a_sequence_wait_for_those_before(nodes, n - 1, base, before, i, k);
    }
}

/// The work nodes of a group wait as its nodes do, one after the other or side by side.
pub proof fn groups_wait_as_their_nodes(node: PlanNode, base: int, before: Set<int>)
    ensures
        node is Sequence ==> waits(node, base, before) == waits_in_sequence(
            node->Sequence_0.nodes@,
            node->Sequence_0.nodes@.len() as int,
            base,
            before,
        ),
        node is Parallel ==> waits(node, base, before) == waits_in_parallel(
            node->Parallel_0.nodes@,
            node->Parallel_0.nodes@.len() as int,
            base,
            before,
        ),
{
}

} // verus!
