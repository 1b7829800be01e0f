//! Which node of a plan waits for which, and what becomes ready when.

use vstd::prelude::*;

use crate::order::{
    ascending_is_exact, dependents_of, depends, ends, ends_in_sequence, explicit, free, free_set,
    freed, freed_set, holds_fetch, needs_fetch, plan_waits, waiting_for, waits, waits_for_each,
    waits_in_parallel, waits_in_sequence, work, work_of_first, DagNodeId,
};
use crate::plan_nodes::{fetches, PlanNode};
use crate::progress::{Origin, Progress};

verus! {

/// Whether a fetch under one node lists the ID of a fetch under another one.
pub open spec fn names(a: PlanNode, b: PlanNode) -> bool {
    exists|k: int, m: int|
        0 <= k < fetches(a).len() && 0 <= m < fetches(b).len() && (
        #[trigger] fetches(a)[k]).depends_on is Some
            && fetches(a)[k].depends_on->Some_0@.contains((#[trigger] fetches(b)[m]).id)
}

/// A node waits for another one only for a reason: by its place in the tree, or because one of its
/// fetches lists the ID of a fetch under that node.
pub proof fn a_node_waits_only_for_a_reason(root: PlanNode, j: int, i: int)
    requires
        0 <= j < work(root).len(),
        plan_waits(root)[j].contains(i),
    ensures
        waits(root, 0, Set::empty())[j].contains(i) || (0 <= i < work(root).len() && i != j && names(
            work(root)[j],
            work(root)[i],
        )),
{
    waits_for_each(root, 0, Set::empty());
    if !waits(root, 0, Set::empty())[j].contains(i) {
        assert(depends(work(root), j, i));
        let (a, b) = (work(root)[j], work(root)[i]);
        let id = choose|id: i64| #[trigger] needs_fetch(a, id) && holds_fetch(b, id);
        let k = choose|k: int|
            0 <= k < fetches(a).len() && ((#[trigger] fetches(a)[k]).depends_on matches Some(ids)
                && ids@.contains(id));
        let m = choose|m: int| 0 <= m < fetches(b).len() && (#[trigger] fetches(b)[m]).id == id;
        assert(fetches(a)[k].depends_on is Some && fetches(a)[k].depends_on->Some_0@.contains(
            fetches(b)[m].id,
        ));
    }
}

/// Both reasons count: what a node waits for by its place in the tree it waits for, and it waits
/// for every other node with a fetch whose ID one of its fetches lists.
pub proof fn a_node_waits_for_every_reason(root: PlanNode, j: int, i: int)
    requires
        0 <= j < work(root).len(),
        waits(root, 0, Set::empty())[j].contains(i) || (0 <= i < work(root).len() && i != j && names(
            work(root)[j],
            work(root)[i],
        )),
    ensures
        plan_waits(root)[j].contains(i),
{
    waits_for_each(root, 0, Set::empty());
    if !waits(root, 0, Set::empty())[j].contains(i) {
        let (a, b) = (work(root)[j], work(root)[i]);
        let (k, m) = choose|k: int, m: int|
            0 <= k < fetches(a).len() && 0 <= m < fetches(b).len() && (
            #[trigger] fetches(a)[k]).depends_on is Some
                && fetches(a)[k].depends_on->Some_0@.contains((#[trigger] fetches(b)[m]).id);
        let id = fetches(b)[m].id;
        assert(needs_fetch(a, id)) by {
            assert(fetches(a)[k].depends_on is Some);
        }
        assert(holds_fetch(b, id));
        assert(depends(work(root), j, i));
        assert(explicit(work(root), j).contains(i));
    }
}

/// Where no fetch of a plan names another one, the tree alone decides what waits for what.
pub proof fn without_names_the_tree_decides(root: PlanNode)
    requires
        forall|j: int, i: int|
            0 <= j < work(root).len() && 0 <= i < work(root).len() && i != j ==> !(#[trigger] names(
                work(root)[j],
                work(root)[i],
            )),
    ensures
        plan_waits(root) == waits(root, 0, Set::empty()),
{
    let tree = waits(root, 0, Set::empty());
    waits_for_each(root, 0, Set::empty());
    assert forall|j: int| 0 <= j < work(root).len() implies plan_waits(root)[j] =~= tree[j] by {
        assert forall|i: int| plan_waits(root)[j].contains(i) <==> tree[j].contains(i) by {
            if plan_waits(root)[j].contains(i) {
                a_node_waits_only_for_a_reason(root, j, i);
            }
            if tree[j].contains(i) {
                a_node_waits_for_every_reason(root, j, i);
            }
        }
    }
    assert(plan_waits(root) =~= tree);
}

/// Whether a node does work of its own.
pub open spec fn is_leaf(node: PlanNode) -> bool {
    node is Fetch || node is Flatten || node is Condition
}

/// A node that does work of its own is one work node. It waits for exactly what stands before it,
/// and it is complete when it is done. A subscription or a deferred plan is passed over.
pub proof fn a_leaf_waits_for_what_stands_before(node: PlanNode, base: int, before: Set<int>)
    ensures
        is_leaf(node) ==> work(node) == seq![node] && waits(node, base, before) == seq![before]
            && ends(node, base, before) == Set::<int>::empty().insert(base),
        node is Subscription || node is Defer ==> work(node).len() == 0 && waits(
            node,
            base,
            before,
        ).len() == 0 && ends(node, base, before) == before,
{
}

/// Groups are taken apart: the work nodes of a group are those of its nodes, in their order. Those
/// of node `i` stand from the given position on.
pub proof fn groups_are_taken_apart(nodes: Seq<PlanNode>, n: int, i: int, k: int)
    requires
        0 <= i < n <= nodes.len(),
        0 <= k < work(nodes[i]).len(),
    ensures
        work_of_first(nodes, 0).len() == 0,
        work_of_first(nodes, i + 1).len() == work_of_first(nodes, i).len() + work(nodes[i]).len(),
        work_of_first(nodes, i).len() + k < work_of_first(nodes, n).len(),
        work_of_first(nodes, n)[work_of_first(nodes, i).len() + k] == work(nodes[i])[k],
    decreases n,
{
    if i < n - 1 {
        groups_are_taken_apart(nodes, n - 1, i, k);
        assert(work_of_first(nodes, n) == work_of_first(nodes, n - 1) + work(nodes[n - 1]));
    }
}

/// The work of a sequence, and of nodes side by side, is that of their nodes.
pub proof fn groups_work_as_their_nodes(node: PlanNode)
    ensures
        node is Sequence ==> work(node) == work_of_first(
            node->Sequence_0.nodes@,
            node->Sequence_0.nodes@.len() as int,
        ),
        node is Parallel ==> work(node) == work_of_first(
            node->Parallel_0.nodes@,
            node->Parallel_0.nodes@.len() as int,
        ),
{
}

/// Nodes side by side are launched together: each waits for exactly what it would wait for if it
/// stood there alone.
pub proof fn nodes_side_by_side_wait_as_if_alone(
    nodes: Seq<PlanNode>,
    n: int,
    base: int,
    before: Set<int>,
    i: int,
    k: int,
)
    requires
        0 <= i < n <= nodes.len(),
        0 <= k < work(nodes[i]).len(),
    ensures
        waits_in_parallel(nodes, n, base, before).len() == work_of_first(nodes, n).len(),
        waits_in_parallel(nodes, n, base, before)[work_of_first(nodes, i).len() + k] == waits(
            nodes[i],
            base + work_of_first(nodes, i).len(),
            before,
        )[k],
    decreases n,
{
    let created = work_of_first(nodes, n - 1).len();
    lemma_side_by_side_len(nodes, n - 1, base, before);
    waits_for_each(nodes[n - 1], base + created, before);
    if i < n - 1 {
        nodes_side_by_side_wait_as_if_alone(nodes, n - 1, base, before, i, k);
        groups_are_taken_apart(nodes, n - 1, i, k);
    }
}

proof fn lemma_side_by_side_len(nodes: Seq<PlanNode>, n: int, base: int, before: Set<int>)
    requires
        0 <= n <= nodes.len(),
    ensures
        waits_in_parallel(nodes, n, base, before).len() == work_of_first(nodes, n).len(),
    decreases n,
{
    if n > 0 {
        lemma_side_by_side_len(nodes, n - 1, base, before);
        waits_for_each(nodes[n - 1], base + work_of_first(nodes, n - 1).len(), before);
    }
}

/// Leaves side by side all wait for the same: for what stands before them, and for nothing else.
pub proof fn leaves_side_by_side_wait_for_the_same(node: PlanNode, base: int, before: Set<int>, k: int)
    requires
        node is Parallel,
        forall|i: int|
            0 <= i < node->Parallel_0.nodes@.len() ==> is_leaf(#[trigger] node->Parallel_0.nodes@[i]),
        0 <= k < node->Parallel_0.nodes@.len(),
    ensures
        waits(node, base, before).len() == node->Parallel_0.nodes@.len(),
        waits(node, base, before)[k] == before,
        work(node)[k] == node->Parallel_0.nodes@[k],
{
    let nodes = node->Parallel_0.nodes@;
    let n = nodes.len() as int;
    assert(is_leaf(nodes[k]));
    lemma_leaves_len(nodes, k);
    lemma_leaves_len(nodes, n);
    nodes_side_by_side_wait_as_if_alone(nodes, n, base, before, k, 0);
    groups_are_taken_apart(nodes, n, k, 0);
}

proof fn lemma_leaves_len(nodes: Seq<PlanNode>, n: int)
    requires
        0 <= n <= nodes.len(),
        forall|i: int| 0 <= i < nodes.len() ==> is_leaf(#[trigger] nodes[i]),
    ensures
        work_of_first(nodes, n).len() == n,
    decreases n,
{
    if n > 0 {
        lemma_leaves_len(nodes, n - 1);
        assert(is_leaf(nodes[n - 1]));
        a_leaf_waits_for_what_stands_before(nodes[n - 1], 0, Set::empty());
    }
}

/// Leaves in a sequence run one after the other: the first one waits for what stands before the
/// sequence, and each later one for the one before it, and for nothing else.
pub proof fn leaves_in_a_sequence_wait_in_turn(node: PlanNode, base: int, before: Set<int>, k: int)
    requires
        node is Sequence,
        forall|i: int|
            0 <= i < node->Sequence_0.nodes@.len() ==> is_leaf(#[trigger] node->Sequence_0.nodes@[i]),
        0 <= k < node->Sequence_0.nodes@.len(),
    ensures
        waits(node, base, before).len() == node->Sequence_0.nodes@.len(),
        waits(node, base, before)[k] == (if k == 0 {
            before
        } else {
            Set::<int>::empty().insert(base + k - 1)
        }),
        work(node)[k] == node->Sequence_0.nodes@[k],
{
    let nodes = node->Sequence_0.nodes@;
    let n = nodes.len() as int;
    lemma_line_of_leaves(nodes, n, base, before, k);
    assert(is_leaf(nodes[k]));
    lemma_leaves_len(nodes, k);
    lemma_leaves_len(nodes, n);
    groups_are_taken_apart(nodes, n, k, 0);
}

proof fn lemma_line_of_leaves(
    nodes: Seq<PlanNode>,
    n: int,
    base: int,
    before: Set<int>,
    k: int,
)
    requires
        0 <= k < n <= nodes.len(),
        forall|i: int| 0 <= i < nodes.len() ==> is_leaf(#[trigger] nodes[i]),
    ensures
        waits_in_sequence(nodes, n, base, before).len() == n,
        waits_in_sequence(nodes, n, base, before)[k] == (if k == 0 {
            before
        } else {
            Set::<int>::empty().insert(base + k - 1)
        }),
    decreases n,
{
    let previous = ends_in_sequence(nodes, n - 1, base, before);
    assert(is_leaf(nodes[n - 1]));
    lemma_leaves_len(nodes, n - 1);
    a_leaf_waits_for_what_stands_before(nodes[n - 1], base + n - 1, previous);
    assert(waits_in_sequence(nodes, n, base, before) == waits_in_sequence(
        nodes,
        n - 1,
        base,
        before,
    ) + waits(nodes[n - 1], base + work_of_first(nodes, n - 1).len(), previous));
    if n == 1 {
        assert(previous == before);
        assert(waits_in_sequence(nodes, 0, base, before).len() == 0);
    }
    if n > 1 {
        assert(is_leaf(nodes[n - 2]));
        lemma_leaves_len(nodes, n - 2);
        a_leaf_waits_for_what_stands_before(
            nodes[n - 2],
            base + n - 2,
            ends_in_sequence(nodes, n - 2, base, before),
        );
        lemma_line_of_leaves(nodes, n - 1, base, before, if k < n - 1 { k } else { 0 });
    }
}

/// At the start exactly the nodes are ready that wait for nothing, in ascending order.
pub proof fn what_waits_for_nothing_is_ready(waits: Seq<Set<int>>)
    requires
        waits.len() <= usize::MAX,
    ensures
        forall|d: DagNodeId| #[trigger]
            free(waits).contains(d) <==> d < waits.len() && forall|w: int| !waits[d as int].contains(w),
        forall|a: int, b: int| 0 <= a < b < free(waits).len() ==> free(waits)[a] < free(waits)[b],
{
    let set = free_set(waits);
    ascending_is_exact(set, waits.len() as int);
    assert forall|d: DagNodeId| #[trigger] free(waits).contains(d) <==> d < waits.len() && forall|
        w: int,
    | !waits[d as int].contains(w) by {
        if free(waits).contains(d) {
            assert(free(waits)[free(waits).index_of(d)] == d);
            assert(set.contains(d as int));
        }
        if d < waits.len() && forall|w: int| !waits[d as int].contains(w) {
            assert(waits[d as int] =~= Set::empty());
            assert(set.contains(d as int));
        }
    }
}

/// When a node completes, exactly those nodes become ready that wait for it and whose other waits
/// are over, in ascending order.
pub proof fn what_waits_for_nothing_else_becomes_ready(
    waits: Seq<Set<int>>,
    done: Set<int>,
    id: int,
)
    requires
        waits.len() <= usize::MAX,
    ensures
        forall|d: DagNodeId| #[trigger]
            freed(waits, done, id).contains(d) <==> d < waits.len() && waits[d as int].contains(id)
                && forall|w: int|
                waits[d as int].contains(w) && w != id ==> done.contains(w),
        forall|a: int, b: int|
            0 <= a < b < freed(waits, done, id).len() ==> freed(waits, done, id)[a] < freed(
                waits,
                done,
                id,
            )[b],
{
    let set = freed_set(waits, done, id);
    let list = freed(waits, done, id);
    ascending_is_exact(set, waits.len() as int);
    assert forall|d: DagNodeId| #[trigger] list.contains(d) <==> d < waits.len()
        && waits[d as int].contains(id) && forall|w: int|
        waits[d as int].contains(w) && w != id ==> done.contains(w) by {
        if list.contains(d) {
            assert(list[list.index_of(d)] == d);
            assert(set.contains(d as int));
            assert forall|w: int| waits[d as int].contains(w) && w != id implies done.contains(w) by {
                assert(done.insert(id).contains(w));
            }
        }
        if d < waits.len() && waits[d as int].contains(id) && forall|w: int|
            waits[d as int].contains(w) && w != id ==> done.contains(w) {
            assert(waits[d as int].subset_of(done.insert(id)));
            assert(set.contains(d as int));
        }
    }
}

/// Exactly those nodes are told that a node completed that wait for it, in ascending order.
pub proof fn who_waits_is_told(waits: Seq<Set<int>>, i: int)
    requires
        waits.len() <= usize::MAX,
    ensures
        forall|d: DagNodeId| #[trigger]
            waiting_for(waits, i).contains(d) <==> d < waits.len() && waits[d as int].contains(i),
        forall|a: int, b: int|
            0 <= a < b < waiting_for(waits, i).len() ==> waiting_for(waits, i)[a] < waiting_for(
                waits,
                i,
            )[b],
{
    let set = dependents_of(waits, i);
    let list = waiting_for(waits, i);
    ascending_is_exact(set, waits.len() as int);
    assert forall|d: DagNodeId| #[trigger] list.contains(d) <==> d < waits.len()
        && waits[d as int].contains(i) by {
        if list.contains(d) {
            assert(list[list.index_of(d)] == d);
            assert(set.contains(d as int));
        }
        if d < waits.len() && waits[d as int].contains(i) {
            assert(set.contains(d as int));
        }
    }
}

/// A run starts with all nodes to be prepared that wait for nothing, in order, and nothing else
/// done.
pub proof fn a_run_starts_with_what_is_ready(plan: Seq<PlanNode>, waits: Seq<Set<int>>)
    ensures
        ({
            let p = Progress::start(plan, waits);
            &&& p.plan == plan
            &&& p.waits == waits
            &&& p.pending.len() == free(waits).len()
            &&& forall|k: int|
                0 <= k < free(waits).len() ==> #[trigger] p.pending[k] == (
                    free(waits)[k],
                    Origin::Start,
                )
            &&& p.current is None
            &&& forall|job: usize| !p.running.contains_key(job)
            &&& forall|i: int| !p.asked.contains(i) && !p.done.contains(i)
        }),
{
}

/// The first node that is to be prepared is given out, and the others stay in their order.
pub proof fn nodes_are_given_out_in_order(p: Progress)
    requires
        p.pending.len() > 0,
    ensures
        p.taken().current == Some(p.pending[0]),
        p.pending == seq![p.pending[0]] + p.taken().pending,
        forall|i: int|
            p.taken().asked.contains(i) <==> p.asked.contains(i) || i == p.pending[0].0,
        p.taken().plan == p.plan,
        p.taken().waits == p.waits,
        p.taken().running == p.running,
        p.taken().done == p.done,
{
    assert(p.pending =~= seq![p.pending[0]] + p.taken().pending);
}

/// Starting a job adds it to those that run, for the node that was prepared, and changes nothing
/// else.
pub proof fn a_job_runs_for_its_node(p: Progress, job: usize)
    requires
        p.current is Some,
    ensures
        p.launched(job).current is None,
        p.launched(job).running.contains_key(job),
        p.launched(job).running[job] == p.current->Some_0.0,
        forall|other: usize|
            other != job ==> (p.launched(job).running.contains_key(other)
                <==> p.running.contains_key(other)) && (p.running.contains_key(other)
                ==> p.launched(job).running[other] == p.running[other]),
        p.launched(job).plan == p.plan,
        p.launched(job).waits == p.waits,
        p.launched(job).pending == p.pending,
        p.launched(job).asked == p.asked,
        p.launched(job).done == p.done,
{
}

/// A node without work is completed, whichever node it is, and frees what waits for nothing else:
/// before any job was waited for behind all other nodes, later before them.
pub proof fn a_node_without_work_is_completed(p: Progress)
    requires
        p.current is Some,
    ensures
        ({
            let (id, origin) = p.current->Some_0;
            let q = p.without_work();
            let new = freed(p.waits, p.done, id as int);
            let at = if origin == Origin::Start {
                p.pending.len() as int
            } else {
                0
            };
            let shift = if origin == Origin::Start {
                0
            } else {
                new.len() as int
            };
            &&& q.current is None
            &&& forall|i: int| q.done.contains(i) <==> p.done.contains(i) || i == id
            &&& q.pending.len() == p.pending.len() + new.len()
            &&& forall|k: int|
                0 <= k < new.len() ==> q.pending[at + k] == (#[trigger] new[k], origin)
            &&& forall|k: int|
                0 <= k < p.pending.len() ==> q.pending[shift + k] == #[trigger] p.pending[k]
            &&& q.plan == p.plan
            &&& q.waits == p.waits
            &&& q.running == p.running
            &&& q.asked == p.asked
        }),
{
}

/// When a job comes back, whichever it is, its node is completed, and what waits for nothing else
/// is to be prepared before all other nodes. The other jobs go on.
pub proof fn a_job_that_comes_back_completes_its_node(p: Progress, job: usize)
    ensures
        p.running.contains_key(job) ==> ({
            let id = p.running[job];
            let q = p.returned(job);
            let new = freed(p.waits, p.done, id as int);
            &&& forall|i: int| q.done.contains(i) <==> p.done.contains(i) || i == id
            &&& q.pending.len() == new.len() + p.pending.len()
            &&& forall|k: int|
                0 <= k < new.len() ==> q.pending[k] == (#[trigger] new[k], Origin::Completed)
            &&& forall|k: int|
                0 <= k < p.pending.len() ==> q.pending[new.len() + k] == #[trigger] p.pending[k]
            &&& forall|other: usize|
                q.running.contains_key(other) <==> p.running.contains_key(other) && other != job
            &&& forall|other: usize|
                p.running.contains_key(other) && other != job ==> q.running[other]
                    == p.running[other]
            &&& q.plan == p.plan
            &&& q.waits == p.waits
            &&& q.current == p.current
            &&& q.asked == p.asked
        }),
        !p.running.contains_key(job) ==> p.returned(job) == p,
{
}

} // verus!
