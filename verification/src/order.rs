//! The order in which the nodes of a plan run, as mathematics.
//!
//! A plan tree gives a sequence of work nodes, each of which waits for some others. The order is
//! described by two sequences: the work nodes in the order of the plan, and for each of them the
//! positions of the nodes that it waits for.

use vstd::prelude::*;

use crate::plan_nodes::{fetches, fetches_of_first, PlanNode};

verus! {

/// A unique identifier for a DAG node: its position among the work nodes.
pub type DagNodeId = usize;

/// The nodes under `node` that do work of their own, in the order of the plan. Subscriptions and
/// deferred plans are not run this way.
pub open spec fn work(node: PlanNode) -> Seq<PlanNode>
    decreases node, 0int,
{
    match node {
        PlanNode::Sequence(sequence) => work_of_first(
            sequence.nodes@,
            sequence.nodes@.len() as int,
        ),
        PlanNode::Parallel(parallel) => work_of_first(
            parallel.nodes@,
            parallel.nodes@.len() as int,
        ),
        PlanNode::Fetch(_) | PlanNode::Flatten(_) | PlanNode::Condition(_) => seq![node],
        PlanNode::Subscription(_) | PlanNode::Defer(_) => Seq::empty(),
    }
}

/// The work nodes under the first `n` of some nodes.
pub open spec fn work_of_first(nodes: Seq<PlanNode>, n: int) -> Seq<PlanNode>
    decreases nodes, n,
{
    if n <= 0 || n > nodes.len() {
        Seq::empty()
    } else {
        work_of_first(nodes, n - 1) + work(nodes[n - 1])
    }
}

/// The work nodes under `node` that must complete for `node` to be complete, when the first of them
/// gets position `base`: those that nothing inside `node` comes after. Where there is no work under
/// `node`, what stands `before` it.
pub open spec fn ends(node: PlanNode, base: int, before: Set<int>) -> Set<int>
    decreases node, 0int,
{
    match node {
        PlanNode::Sequence(sequence) => ends_in_sequence(
            sequence.nodes@,
            sequence.nodes@.len() as int,
            base,
            before,
        ),
        PlanNode::Parallel(parallel) => {
            let n = parallel.nodes@.len() as int;
            if work_of_first(parallel.nodes@, n).len() == 0 {
                before
            } else {
                ends_in_parallel(parallel.nodes@, n, base, before)
            }
        },
        PlanNode::Fetch(_) | PlanNode::Flatten(_) | PlanNode::Condition(_) => set![base],
        PlanNode::Subscription(_) | PlanNode::Defer(_) => before,
    }
}

/// [`ends`] of the first `n` nodes of a sequence: those of the last one that has work.
pub open spec fn ends_in_sequence(
    nodes: Seq<PlanNode>,
    n: int,
    base: int,
    before: Set<int>,
) -> Set<int>
    decreases nodes, n,
{
    if n <= 0 || n > nodes.len() {
        before
    } else {
        ends(
            nodes[n - 1],
            base + work_of_first(nodes, n - 1).len(),
            ends_in_sequence(nodes, n - 1, base, before),
        )
    }
}

/// [`ends`] of the first `n` nodes that run side by side: those of all that have work.
pub open spec fn ends_in_parallel(
    nodes: Seq<PlanNode>,
    n: int,
    base: int,
    before: Set<int>,
) -> Set<int>
    decreases nodes, n,
{
    if n <= 0 || n > nodes.len() {
        Set::empty()
    } else {
        let earlier = ends_in_parallel(nodes, n - 1, base, before);
        if work(nodes[n - 1]).len() == 0 {
            earlier
        } else {
            earlier.union(ends(nodes[n - 1], base + work_of_first(nodes, n - 1).len(), before))
        }
    }
}

/// What each work node under `node` waits for by its place in the tree, when the first of them gets
/// position `base` and those that nothing inside `node` precedes wait for what stands `before`.
pub open spec fn waits(node: PlanNode, base: int, before: Set<int>) -> Seq<Set<int>>
    decreases node, 0int,
{
    match node {
        PlanNode::Sequence(sequence) => waits_in_sequence(
            sequence.nodes@,
            sequence.nodes@.len() as int,
            base,
            before,
        ),
        PlanNode::Parallel(parallel) => waits_in_parallel(
            parallel.nodes@,
            parallel.nodes@.len() as int,
            base,
            before,
        ),
        PlanNode::Fetch(_) | PlanNode::Flatten(_) | PlanNode::Condition(_) => seq![before],
        PlanNode::Subscription(_) | PlanNode::Defer(_) => Seq::empty(),
    }
}

/// [`waits`] for the first `n` nodes of a sequence: each of them waits for all of what stands before
/// it to be complete.
pub open spec fn waits_in_sequence(
    nodes: Seq<PlanNode>,
    n: int,
    base: int,
    before: Set<int>,
) -> Seq<Set<int>>
    decreases nodes, n,
{
    if n <= 0 || n > nodes.len() {
        Seq::empty()
    } else {
        waits_in_sequence(nodes, n - 1, base, before) + waits(
            nodes[n - 1],
            base + work_of_first(nodes, n - 1).len(),
            ends_in_sequence(nodes, n - 1, base, before),
        )
    }
}

/// [`waits`] for the first `n` nodes that run side by side: each of them waits for the same.
pub open spec fn waits_in_parallel(
    nodes: Seq<PlanNode>,
    n: int,
    base: int,
    before: Set<int>,
) -> Seq<Set<int>>
    decreases nodes, n,
{
    if n <= 0 || n > nodes.len() {
        Seq::empty()
    } else {
        waits_in_parallel(nodes, n - 1, base, before) + waits(
            nodes[n - 1],
            base + work_of_first(nodes, n - 1).len(),
            before,
        )
    }
}

/// Whether a fetch with this ID is under a node.
pub open spec fn holds_fetch(node: PlanNode, id: i64) -> bool {
    exists|k: int| 0 <= k < fetches(node).len() && (#[trigger] fetches(node)[k]).id == id
}

/// Whether a fetch under a node depends explicitly on the fetches with this ID.
pub open spec fn needs_fetch(node: PlanNode, id: i64) -> bool {
    exists|k: int|
        0 <= k < fetches(node).len() && ((#[trigger] fetches(node)[k]).depends_on matches Some(ids)
            && ids@.contains(id))
}

/// Whether a fetch under work node `j` depends explicitly on one under another work node `i`.
pub open spec fn depends(plan: Seq<PlanNode>, j: int, i: int) -> bool {
    i != j && exists|id: i64| #[trigger]
        needs_fetch(plan[j], id) && holds_fetch(plan[i], id)
}

/// The work nodes that work node `j` waits for because its fetches depend on them explicitly. An ID
/// that no fetch of the plan has is not waited for, and no node waits for itself: of the fetches
/// under one node only one is ever requested.
pub open spec fn explicit(plan: Seq<PlanNode>, j: int) -> Set<int> {
    Set::new(|i: int| 0 <= i < plan.len() && depends(plan, j, i))
}

/// What work nodes wait for by their place in the tree, and what they depend on explicitly.
pub open spec fn with_explicit(plan: Seq<PlanNode>, waits: Seq<Set<int>>) -> Seq<Set<int>> {
    Seq::new(waits.len(), |j: int| waits[j].union(explicit(plan, j)))
}

/// What each work node of a plan waits for. Nodes that wait for each other in a circle wait for
/// ever: they are never run.
pub open spec fn plan_waits(root: PlanNode) -> Seq<Set<int>> {
    with_explicit(work(root), waits(root, 0, Set::empty()))
}

/// The positions below `n` that are in a set, in ascending order.
pub open spec fn ascending(set: Set<int>, n: int) -> Seq<DagNodeId>
    decreases n,
{
    if n <= 0 {
        Seq::empty()
    } else {
        let earlier = ascending(set, n - 1);
        if set.contains(n - 1) {
            earlier.push((n - 1) as usize)
        } else {
            earlier
        }
    }
}

/// The nodes that wait for node `i`.
pub open spec fn dependents_of(waits: Seq<Set<int>>, i: int) -> Set<int> {
    Set::new(|d: int| 0 <= d < waits.len() && waits[d].contains(i))
}

/// The nodes, in ascending order, that wait for node `i`.
pub open spec fn waiting_for(waits: Seq<Set<int>>, i: int) -> Seq<DagNodeId> {
    ascending(dependents_of(waits, i), waits.len() as int)
}

/// The nodes that wait for nothing.
pub open spec fn free_set(waits: Seq<Set<int>>) -> Set<int> {
    Set::new(|d: int| 0 <= d < waits.len() && waits[d] == Set::<int>::empty())
}

/// The nodes, in ascending order, that wait for nothing.
pub open spec fn free(waits: Seq<Set<int>>) -> Seq<DagNodeId> {
    ascending(free_set(waits), waits.len() as int)
}

/// The nodes that wait for node `id`, and for nothing else that is not done.
pub open spec fn freed_set(waits: Seq<Set<int>>, done: Set<int>, id: int) -> Set<int> {
    Set::new(
        |d: int|
            0 <= d < waits.len() && waits[d].contains(id) && waits[d].subset_of(done.insert(id)),
    )
}

/// The nodes, in ascending order, that become ready when node `id` completes.
pub open spec fn freed(waits: Seq<Set<int>>, done: Set<int>, id: int) -> Seq<DagNodeId> {
    ascending(freed_set(waits, done, id), waits.len() as int)
}

/// Whether IDs come in ascending order, each of them once.
pub open spec fn increasing(ids: Seq<DagNodeId>) -> bool {
    forall|j: int, k: int| 0 <= j < k < ids.len() ==> ids[j] < ids[k]
}

/// The positions that IDs stand for.
pub open spec fn id_set(ids: Seq<DagNodeId>) -> Set<int> {
    ids.map_values(|id: DagNodeId| id as int).to_set()
}

/// Whether nodes wait only for each other.
pub open spec fn inside(waits: Seq<Set<int>>) -> bool {
    forall|j: int, i: int|
        0 <= j < waits.len() && #[trigger] waits[j].contains(i) ==> 0 <= i < waits.len()
}

/// [`ascending`] lists exactly the positions of the set, in ascending order.
pub proof fn ascending_is_exact(set: Set<int>, n: int)
    requires
        n <= usize::MAX,
    ensures
        forall|k: int|
            0 <= k < ascending(set, n).len() ==> (#[trigger] ascending(set, n)[k]) < n
                && set.contains(ascending(set, n)[k] as int),
        increasing(ascending(set, n)),
        forall|id: DagNodeId|
            id < n && set.contains(id as int) ==> #[trigger] ascending(set, n).contains(id),
    decreases n,
{
    if n > 0 {
        let earlier = ascending(set, n - 1);
        let all = ascending(set, n);
        ascending_is_exact(set, n - 1);
        assert forall|id: DagNodeId| id < n && set.contains(id as int) implies #[trigger] all.contains(
            id,
        ) by {
            if id < n - 1 {
                assert(earlier.contains(id));
                assert(all[earlier.index_of(id)] == id);
            } else {
                assert(all[earlier.len() as int] == id);
            }
        }
    }
}

/// IDs in ascending order that are exactly the positions of a set are those of [`ascending`].
pub proof fn ascending_is_unique(ids: Seq<DagNodeId>, set: Set<int>, n: int)
    requires
        0 <= n <= usize::MAX,
        increasing(ids),
        forall|k: int|
            0 <= k < ids.len() ==> (#[trigger] ids[k]) < n && set.contains(ids[k] as int),
        forall|id: DagNodeId| id < n && set.contains(id as int) ==> #[trigger] ids.contains(id),
    ensures
        ids == ascending(set, n),
    decreases n,
{
    if n == 0 {
        if ids.len() > 0 {
            assert(ids[0] < n);
        }
        assert(ids =~= Seq::empty());
    } else if set.contains(n - 1) {
        let top = (n - 1) as usize;
        let shorter = ids.drop_last();
        assert(ids.contains(top));
        let at = ids.index_of(top);
        if at < ids.len() - 1 {
            assert(ids[at] < ids[ids.len() - 1]);
            assert(ids[ids.len() - 1] < n);
        }
        assert forall|id: DagNodeId| id < n - 1 && set.contains(id as int) implies (
        #[trigger] shorter.contains(id)) by {
            assert(ids.contains(id));
            assert(shorter[ids.index_of(id)] == id);
        }
        assert forall|k: int| 0 <= k < shorter.len() implies (#[trigger] shorter[k]) < n - 1
            && set.contains(shorter[k] as int) by {
            assert(ids[k] < ids[at]);
        }
        ascending_is_unique(shorter, set, n - 1);
        assert(ids =~= shorter.push(top));
    } else {
        assert forall|k: int| 0 <= k < ids.len() implies (#[trigger] ids[k]) < n - 1 && set.contains(
            ids[k] as int,
        ) by {}
        ascending_is_unique(ids, set, n - 1);
    }
}

/// The positions that IDs stand for are those of the IDs, and as many where no ID occurs twice.
pub proof fn id_set_is_exact(ids: Seq<DagNodeId>)
    ensures
        forall|k: int| 0 <= k < ids.len() ==> id_set(ids).contains(#[trigger] ids[k] as int),
        forall|i: int| #[trigger]
            id_set(ids).contains(i) ==> 0 <= i <= usize::MAX && ids.contains(i as usize),
        id_set(ids).finite(),
        increasing(ids) ==> id_set(ids).len() == ids.len(),
{
    let positions = ids.map_values(|id: DagNodeId| id as int);
    assert forall|k: int| 0 <= k < ids.len() implies id_set(ids).contains(
        #[trigger] ids[k] as int,
    ) by {
        assert(positions[k] == ids[k]);
    }
    assert forall|i: int| #[trigger] id_set(ids).contains(i) implies 0 <= i <= usize::MAX
        && ids.contains(i as usize) by {
        let k = positions.index_of(i);
        assert(positions[k] == i);
        assert(ids[k] == i as usize);
    }
    vstd::seq_lib::seq_to_set_is_finite(positions);
    if increasing(ids) {
        assert(positions.no_duplicates()) by {
            assert forall|j: int, k: int|
                0 <= j < positions.len() && 0 <= k < positions.len() && j != k implies positions[j]
                != positions[k] by {
                if j < k {
                    assert(ids[j] < ids[k]);
                } else {
                    assert(ids[k] < ids[j]);
                }
            }
        }
        positions.unique_seq_to_set();
    }
}

/// Whether node `a` waits for node `b`, by at most `n` steps.
pub open spec fn reaches(waits: Seq<Set<int>>, n: nat, a: int, b: int) -> bool
    decreases n,
{
    n > 0 && 0 <= a < waits.len() && exists|c: int| #[trigger]
        waits[a].contains(c) && (c == b || reaches(waits, (n - 1) as nat, c, b))
}

/// Whether, by some steps of `waits`, node `a` waits for node `b`.
pub open spec fn runs_after(waits: Seq<Set<int>>, a: int, b: int) -> bool {
    exists|n: nat| reaches(waits, n, a, b)
}

/// What a node waits for, it runs after.
pub proof fn waiting_is_running_after(waits: Seq<Set<int>>, a: int, b: int)
    requires
        0 <= a < waits.len(),
        waits[a].contains(b),
    ensures
        runs_after(waits, a, b),
{
    assert(reaches(waits, 1, a, b));
}

proof fn lemma_reaches_transitive(waits: Seq<Set<int>>, n: nat, m: nat, a: int, b: int, c: int)
    requires
        reaches(waits, n, a, b),
        reaches(waits, m, b, c),
    ensures
        reaches(waits, n + m, a, c),
    decreases n,
{
    let next = choose|next: int| #[trigger]
        waits[a].contains(next) && (next == b || reaches(waits, (n - 1) as nat, next, b));
    if next == b {
        lemma_reaches_more(waits, m, (n + m - 1) as nat, b, c);
    } else {
        lemma_reaches_transitive(waits, (n - 1) as nat, m, next, b, c);
        assert((n - 1) as nat + m == (n + m - 1) as nat);
    }
    assert(waits[a].contains(next) && reaches(waits, (n + m - 1) as nat, next, c));
}

proof fn lemma_reaches_more(waits: Seq<Set<int>>, n: nat, m: nat, a: int, b: int)
    requires
        n <= m,
        reaches(waits, n, a, b),
    ensures
        reaches(waits, m, a, b),
    decreases n,
{
    let next = choose|next: int| #[trigger]
        waits[a].contains(next) && (next == b || reaches(waits, (n - 1) as nat, next, b));
    if next != b {
        lemma_reaches_more(waits, (n - 1) as nat, (m - 1) as nat, next, b);
    }
}

/// Running after is transitive.
pub proof fn runs_after_transitive(waits: Seq<Set<int>>, a: int, b: int, c: int)
    requires
        runs_after(waits, a, b),
        runs_after(waits, b, c),
    ensures
        runs_after(waits, a, c),
{
    let n = choose|n: nat| reaches(waits, n, a, b);
    let m = choose|m: nat| reaches(waits, m, b, c);
    lemma_reaches_transitive(waits, n, m, a, b, c);
}

/// Whether the nodes of `whole` from position `base` on wait at least for what `part` says.
pub open spec fn covers(whole: Seq<Set<int>>, part: Seq<Set<int>>, base: int) -> bool {
    &&& 0 <= base
    &&& base + part.len() <= whole.len()
    &&& forall|i: int, w: int|
        0 <= i < part.len() && #[trigger] part[i].contains(w) ==> whole[base + i].contains(w)
}

/// The nodes of a plan wait at least for what their places in the tree say.
pub proof fn covers_root(root: PlanNode)
    ensures
        covers(plan_waits(root), waits(root, 0, Set::empty()), 0),
{
}

/// Where a sequence is covered, so is each of its nodes.
pub proof fn covers_in_sequence(
    whole: Seq<Set<int>>,
    nodes: Seq<PlanNode>,
    n: int,
    base: int,
    before: Set<int>,
    i: int,
)
    requires
        0 <= i < n <= nodes.len(),
        covers(whole, waits_in_sequence(nodes, n, base, before), base),
    ensures
        covers(
            whole,
            waits(
                nodes[i],
                base + work_of_first(nodes, i).len(),
                ends_in_sequence(nodes, i, base, before),
            ),
            base + work_of_first(nodes, i).len(),
        ),
        covers(whole, waits_in_sequence(nodes, i, base, before), base),
    decreases n,
{
    let created = work_of_first(nodes, n - 1).len();
    let earlier = waits_in_sequence(nodes, n - 1, base, before);
    let here = waits(nodes[n - 1], base + created, ends_in_sequence(nodes, n - 1, base, before));
    lemma_sequence_len(nodes, n - 1, base, before);
    lemma_covers_parts(whole, earlier, here, base);
    if i < n - 1 {
        covers_in_sequence(whole, nodes, n - 1, base, before, i);
    }
}

/// Where nodes side by side are covered, so is each of them.
pub proof fn covers_in_parallel(
    whole: Seq<Set<int>>,
    nodes: Seq<PlanNode>,
    n: int,
    base: int,
    before: Set<int>,
    i: int,
)
    requires
        0 <= i < n <= nodes.len(),
        covers(whole, waits_in_parallel(nodes, n, base, before), base),
    ensures
        covers(
            whole,
            waits(nodes[i], base + work_of_first(nodes, i).len(), before),
            base + work_of_first(nodes, i).len(),
        ),
        covers(whole, waits_in_parallel(nodes, i, base, before), base),
    decreases n,
{
    let created = work_of_first(nodes, n - 1).len();
    let earlier = waits_in_parallel(nodes, n - 1, base, before);
    let here = waits(nodes[n - 1], base + created, before);
    lemma_parallel_len(nodes, n - 1, base, before);
    lemma_covers_parts(whole, earlier, here, base);
    if i < n - 1 {
        covers_in_parallel(whole, nodes, n - 1, base, before, i);
    }
}

proof fn lemma_covers_parts(
    whole: Seq<Set<int>>,
    first: Seq<Set<int>>,
    second: Seq<Set<int>>,
    base: int,
)
    requires
        covers(whole, first + second, base),
    ensures
        covers(whole, first, base),
        covers(whole, second, base + first.len()),
{
    let both = first + second;
    assert forall|i: int, w: int| 0 <= i < first.len() && #[trigger] first[i].contains(w) implies whole[base
        + i].contains(w) by {
        assert(both[i].contains(w));
    }
    assert forall|i: int, w: int|
        0 <= i < second.len() && #[trigger] second[i].contains(w) implies whole[base + first.len()
        + i].contains(w) by {
        assert(both[first.len() + i].contains(w));
    }
}

/// Every work node has one entry in [`waits`].
pub proof fn waits_for_each(node: PlanNode, base: int, before: Set<int>)
    ensures
        waits(node, base, before).len() == work(node).len(),
    decreases node, 1int,
{
    match node {
        PlanNode::Sequence(sequence) => {
            lemma_sequence_len(sequence.nodes@, sequence.nodes@.len() as int, base, before);
        },
        PlanNode::Parallel(parallel) => {
            lemma_parallel_len(parallel.nodes@, parallel.nodes@.len() as int, base, before);
        },
        _ => {},
    }
}

proof fn lemma_sequence_len(nodes: Seq<PlanNode>, n: int, base: int, before: Set<int>)
    requires
        0 <= n <= nodes.len(),
    ensures
        waits_in_sequence(nodes, n, base, before).len() == work_of_first(nodes, n).len(),
    decreases nodes, n,
{
    if n > 0 {
        lemma_sequence_len(nodes, n - 1, base, before);
        waits_for_each(
            nodes[n - 1],
            base + work_of_first(nodes, n - 1).len(),
            ends_in_sequence(nodes, n - 1, base, before),
        );
    }
}

proof fn lemma_parallel_len(nodes: Seq<PlanNode>, n: int, base: int, before: Set<int>)
    requires
        0 <= n <= nodes.len(),
    ensures
        waits_in_parallel(nodes, n, base, before).len() == work_of_first(nodes, n).len(),
    decreases nodes, n,
{
    if n > 0 {
        lemma_parallel_len(nodes, n - 1, base, before);
        waits_for_each(nodes[n - 1], base + work_of_first(nodes, n - 1).len(), before);
    }
}

/// Whether all positions of a set are from `low` on and below `high`.
pub open spec fn within(set: Set<int>, low: int, high: int) -> bool {
    forall|i: int| #[trigger] set.contains(i) ==> low <= i < high
}

/// What ends a node is among its work nodes, where it has any; else it is what stands before it.
pub proof fn ends_are_inside(node: PlanNode, base: int, before: Set<int>)
    ensures
        work(node).len() == 0 ==> ends(node, base, before) == before,
        work(node).len() > 0 ==> within(
            ends(node, base, before),
            base,
            base + work(node).len(),
        ),
    decreases node, 1int,
{
    match node {
        PlanNode::Sequence(sequence) => {
            lemma_sequence_ends(sequence.nodes@, sequence.nodes@.len() as int, base, before);
        },
        PlanNode::Parallel(parallel) => {
            lemma_parallel_ends(parallel.nodes@, parallel.nodes@.len() as int, base, before);
        },
        _ => {},
    }
}

proof fn lemma_sequence_ends(nodes: Seq<PlanNode>, n: int, base: int, before: Set<int>)
    requires
        0 <= n <= nodes.len(),
    ensures
        work_of_first(nodes, n).len() == 0 ==> ends_in_sequence(nodes, n, base, before) == before,
        work_of_first(nodes, n).len() > 0 ==> within(
            ends_in_sequence(nodes, n, base, before),
            base,
            base + work_of_first(nodes, n).len(),
        ),
    decreases nodes, n,
{
    if n > 0 {
        lemma_sequence_ends(nodes, n - 1, base, before);
        ends_are_inside(
            nodes[n - 1],
            base + work_of_first(nodes, n - 1).len(),
            ends_in_sequence(nodes, n - 1, base, before),
        );
    }
}

proof fn lemma_parallel_ends(nodes: Seq<PlanNode>, n: int, base: int, before: Set<int>)
    requires
        0 <= n <= nodes.len(),
    ensures
        within(
            ends_in_parallel(nodes, n, base, before),
            base,
            base + work_of_first(nodes, n).len(),
        ),
    decreases nodes, n,
{
    if n > 0 {
        lemma_parallel_ends(nodes, n - 1, base, before);
        ends_are_inside(nodes[n - 1], base + work_of_first(nodes, n - 1).len(), before);
    }
}

/// Whether each of some nodes, of which the first has position `base`, waits only for nodes among
/// them that stand before it, and for what stands `before` them all.
pub open spec fn waits_back(waits: Seq<Set<int>>, base: int, before: Set<int>) -> bool {
    forall|i: int, w: int|
        0 <= i < waits.len() && #[trigger] waits[i].contains(w) ==> before.contains(w) || base <= w
            < base + i
}

/// By its place in the tree a work node waits for work nodes under the same node that stand before
/// it, and for what stands before the node as a whole.
pub proof fn waits_stay_inside(node: PlanNode, base: int, before: Set<int>)
    ensures
        waits_back(waits(node, base, before), base, before),
    decreases node, 1int,
{
    match node {
        PlanNode::Sequence(sequence) => {
            lemma_sequence_inside(sequence.nodes@, sequence.nodes@.len() as int, base, before);
        },
        PlanNode::Parallel(parallel) => {
            lemma_parallel_inside(parallel.nodes@, parallel.nodes@.len() as int, base, before);
        },
        _ => {},
    }
}

proof fn lemma_sequence_inside(nodes: Seq<PlanNode>, n: int, base: int, before: Set<int>)
    requires
        0 <= n <= nodes.len(),
    ensures
        waits_back(waits_in_sequence(nodes, n, base, before), base, before),
    decreases nodes, n,
{
    if n > 0 {
        let created = work_of_first(nodes, n - 1).len();
        let mid = ends_in_sequence(nodes, n - 1, base, before);
        let earlier = waits_in_sequence(nodes, n - 1, base, before);
        let here = waits(nodes[n - 1], base + created, mid);
        lemma_sequence_inside(nodes, n - 1, base, before);
        lemma_sequence_len(nodes, n - 1, base, before);
        lemma_sequence_ends(nodes, n - 1, base, before);
        waits_stay_inside(nodes[n - 1], base + created, mid);
        assert forall|i: int, w: int|
            0 <= i < (earlier + here).len() && #[trigger] (earlier + here)[i].contains(
                w,
            ) implies before.contains(w) || base <= w < base + i by {
            if i < created {
                assert(earlier[i].contains(w));
            } else {
                assert(here[i - created].contains(w));
                if mid.contains(w) && created > 0 {
                    assert(base <= w < base + created);
                }
            }
        }
    }
}

proof fn lemma_parallel_inside(nodes: Seq<PlanNode>, n: int, base: int, before: Set<int>)
    requires
        0 <= n <= nodes.len(),
    ensures
        waits_back(waits_in_parallel(nodes, n, base, before), base, before),
    decreases nodes, n,
{
    if n > 0 {
        let created = work_of_first(nodes, n - 1).len();
        let earlier = waits_in_parallel(nodes, n - 1, base, before);
        let here = waits(nodes[n - 1], base + created, before);
        lemma_parallel_inside(nodes, n - 1, base, before);
        lemma_parallel_len(nodes, n - 1, base, before);
        waits_stay_inside(nodes[n - 1], base + created, before);
        assert forall|i: int, w: int|
            0 <= i < (earlier + here).len() && #[trigger] (earlier + here)[i].contains(
                w,
            ) implies before.contains(w) || base <= w < base + i by {
            if i < created {
                assert(earlier[i].contains(w));
            } else {
                assert(here[i - created].contains(w));
            }
        }
    }
}

/// The nodes of a plan wait only for each other.
pub proof fn plan_waits_stay_inside(root: PlanNode)
    ensures
        plan_waits(root).len() == work(root).len(),
        inside(plan_waits(root)),
{
    let tree = waits(root, 0, Set::empty());
    waits_for_each(root, 0, Set::empty());
    waits_stay_inside(root, 0, Set::empty());
    assert forall|j: int, i: int|
        0 <= j < plan_waits(root).len() && #[trigger] plan_waits(root)[j].contains(i) implies 0 <= i
        < plan_waits(root).len() by {
        if !explicit(work(root), j).contains(i) {
            assert(tree[j].contains(i));
        }
    }
}

/// Whether every node waits only for nodes of a lower rank.
pub open spec fn ranked(waits: Seq<Set<int>>, rank: spec_fn(int) -> nat) -> bool {
    forall|j: int, i: int|
        0 <= j < waits.len() && #[trigger] waits[j].contains(i) ==> rank(i) < rank(j)
}

/// Whether no nodes wait for each other in a circle.
pub open spec fn acyclic(waits: Seq<Set<int>>) -> bool {
    exists|rank: spec_fn(int) -> nat| ranked(waits, rank)
}

/// The tree of a plan makes no circle: where fetches depend explicitly only on fetches that stand
/// before them in the plan, or on none, no nodes wait for each other in a circle.
pub proof fn the_tree_makes_no_circle(root: PlanNode)
    requires
        forall|j: int, i: int|
            0 <= j < work(root).len() && 0 <= i < work(root).len() && #[trigger] depends(
                work(root),
                j,
                i,
            ) ==> i < j,
    ensures
        acyclic(plan_waits(root)),
{
    let tree = waits(root, 0, Set::empty());
    let rank = |i: int|
        if i < 0 {
            0nat
        } else {
            i as nat
        };
    waits_for_each(root, 0, Set::empty());
    waits_stay_inside(root, 0, Set::empty());
    assert forall|j: int, i: int|
        0 <= j < plan_waits(root).len() && #[trigger] plan_waits(root)[j].contains(i) implies rank(
        i,
    ) < rank(j) by {
        if explicit(work(root), j).contains(i) {
            assert(depends(work(root), j, i));
        } else {
            assert(tree[j].contains(i));
        }
    }
    assert(ranked(plan_waits(root), rank));
}

/// Every work node under `node` runs after all that stands before `node`.
pub proof fn all_run_after_before(
    node: PlanNode,
    base: int,
    before: Set<int>,
    whole: Seq<Set<int>>,
    x: int,
    b: int,
)
    requires
        covers(whole, waits(node, base, before), base),
        before.contains(b),
        base <= x < base + work(node).len(),
    ensures
        runs_after(whole, x, b),
    decreases node, 1int,
{
    match node {
        PlanNode::Sequence(sequence) => {
            lemma_sequence_after_before(
                sequence.nodes@,
                sequence.nodes@.len() as int,
                base,
                before,
                whole,
                x,
                b,
            );
        },
        PlanNode::Parallel(parallel) => {
            lemma_parallel_after_before(
                parallel.nodes@,
                parallel.nodes@.len() as int,
                base,
                before,
                whole,
                x,
                b,
            );
        },
        _ => {
            assert(waits(node, base, before)[0].contains(b));
            waiting_is_running_after(whole, x, b);
        },
    }
}

proof fn lemma_sequence_after_before(
    nodes: Seq<PlanNode>,
    n: int,
    base: int,
    before: Set<int>,
    whole: Seq<Set<int>>,
    x: int,
    b: int,
)
    requires
        0 <= n <= nodes.len(),
        covers(whole, waits_in_sequence(nodes, n, base, before), base),
        before.contains(b),
        base <= x < base + work_of_first(nodes, n).len(),
    ensures
        runs_after(whole, x, b),
    decreases nodes, n,
{
    let created = work_of_first(nodes, n - 1).len();
    let mid = ends_in_sequence(nodes, n - 1, base, before);
    covers_in_sequence(whole, nodes, n, base, before, n - 1);
    lemma_sequence_ends(nodes, n - 1, base, before);
    if x < base + created {
        lemma_sequence_after_before(nodes, n - 1, base, before, whole, x, b);
    } else if created == 0 {
        all_run_after_before(nodes[n - 1], base + created, mid, whole, x, b);
    } else {
        let e = lemma_sequence_ends_cover(nodes, n - 1, base, before, whole, base);
        all_run_after_before(nodes[n - 1], base + created, mid, whole, x, e);
        lemma_sequence_after_before(nodes, n - 1, base, before, whole, e, b);
        runs_after_transitive(whole, x, e, b);
    }
}

proof fn lemma_parallel_after_before(
    nodes: Seq<PlanNode>,
    n: int,
    base: int,
    before: Set<int>,
    whole: Seq<Set<int>>,
    x: int,
    b: int,
)
    requires
        0 <= n <= nodes.len(),
        covers(whole, waits_in_parallel(nodes, n, base, before), base),
        before.contains(b),
        base <= x < base + work_of_first(nodes, n).len(),
    ensures
        runs_after(whole, x, b),
    decreases nodes, n,
{
    let created = work_of_first(nodes, n - 1).len();
    covers_in_parallel(whole, nodes, n, base, before, n - 1);
    if x < base + created {
        lemma_parallel_after_before(nodes, n - 1, base, before, whole, x, b);
    } else {
        all_run_after_before(nodes[n - 1], base + created, before, whole, x, b);
    }
}

/// What ends a node comes after all of its work: every work node `y` under it is one of its ends, or
/// one of its ends, which is given back, runs after `y`.
pub proof fn ends_cover_all(
    node: PlanNode,
    base: int,
    before: Set<int>,
    whole: Seq<Set<int>>,
    y: int,
) -> (e: int)
    requires
        covers(whole, waits(node, base, before), base),
        base <= y < base + work(node).len(),
    ensures
        ends(node, base, before).contains(e),
        e == y || runs_after(whole, e, y),
    decreases node, 1int,
{
    match node {
        PlanNode::Sequence(sequence) => lemma_sequence_ends_cover(
            sequence.nodes@,
            sequence.nodes@.len() as int,
            base,
            before,
            whole,
            y,
        ),
        PlanNode::Parallel(parallel) => lemma_parallel_ends_cover(
            parallel.nodes@,
            parallel.nodes@.len() as int,
            base,
            before,
            whole,
            y,
        ),
        _ => base,
    }
}

proof fn lemma_sequence_ends_cover(
    nodes: Seq<PlanNode>,
    n: int,
    base: int,
    before: Set<int>,
    whole: Seq<Set<int>>,
    y: int,
) -> (e: int)
    requires
        0 <= n <= nodes.len(),
        covers(whole, waits_in_sequence(nodes, n, base, before), base),
        base <= y < base + work_of_first(nodes, n).len(),
    ensures
        ends_in_sequence(nodes, n, base, before).contains(e),
        e == y || runs_after(whole, e, y),
    decreases nodes, n,
{
    let created = work_of_first(nodes, n - 1).len();
    let mid = ends_in_sequence(nodes, n - 1, base, before);
    covers_in_sequence(whole, nodes, n, base, before, n - 1);
    if y >= base + created {
        ends_cover_all(nodes[n - 1], base + created, mid, whole, y)
    } else {
        let m = lemma_sequence_ends_cover(nodes, n - 1, base, before, whole, y);
        ends_are_inside(nodes[n - 1], base + created, mid);
        if work(nodes[n - 1]).len() == 0 {
            m
        } else {
            let e = ends_cover_all(nodes[n - 1], base + created, mid, whole, base + created);
            all_run_after_before(nodes[n - 1], base + created, mid, whole, e, m);
            if m != y {
                runs_after_transitive(whole, e, m, y);
            }
            e
        }
    }
}

proof fn lemma_parallel_ends_cover(
    nodes: Seq<PlanNode>,
    n: int,
    base: int,
    before: Set<int>,
    whole: Seq<Set<int>>,
    y: int,
) -> (e: int)
    requires
        0 <= n <= nodes.len(),
        covers(whole, waits_in_parallel(nodes, n, base, before), base),
        base <= y < base + work_of_first(nodes, n).len(),
    ensures
        ends_in_parallel(nodes, n, base, before).contains(e),
        e == y || runs_after(whole, e, y),
    decreases nodes, n,
{
    let created = work_of_first(nodes, n - 1).len();
    covers_in_parallel(whole, nodes, n, base, before, n - 1);
    if y >= base + created {
        ends_cover_all(nodes[n - 1], base + created, before, whole, y)
    } else {
        lemma_parallel_ends_cover(nodes, n - 1, base, before, whole, y)
    }
}

/// A sequence keeps its order: every work node `x` of a later child runs after every work node `y`
/// of an earlier child `i`.
pub proof fn sequence_runs_in_order(
    nodes: Seq<PlanNode>,
    n: int,
    base: int,
    before: Set<int>,
    whole: Seq<Set<int>>,
    i: int,
    x: int,
    y: int,
)
    requires
        0 <= i < n <= nodes.len(),
        covers(whole, waits_in_sequence(nodes, n, base, before), base),
        base + work_of_first(nodes, i).len() <= y < base + work_of_first(nodes, i + 1).len(),
        base + work_of_first(nodes, i + 1).len() <= x < base + work_of_first(nodes, n).len(),
    ensures
        runs_after(whole, x, y),
    decreases n,
{
    let created = work_of_first(nodes, n - 1).len();
    let mid = ends_in_sequence(nodes, n - 1, base, before);
    assert(i + 1 <= n - 1) by {
        if i + 1 == n {
            assert(false);
        }
    }
    lemma_work_grows(nodes, i + 1, n - 1);
    covers_in_sequence(whole, nodes, n, base, before, n - 1);
    if x < base + created {
        sequence_runs_in_order(nodes, n - 1, base, before, whole, i, x, y);
    } else {
        let m = lemma_sequence_ends_cover(nodes, n - 1, base, before, whole, y);
        all_run_after_before(nodes[n - 1], base + created, mid, whole, x, m);
        if m != y {
            runs_after_transitive(whole, x, m, y);
        }
    }
}

proof fn lemma_work_grows(nodes: Seq<PlanNode>, i: int, j: int)
    requires
        0 <= i <= j <= nodes.len(),
    ensures
        work_of_first(nodes, i).len() <= work_of_first(nodes, j).len(),
    decreases j,
{
    if i < j {
        lemma_work_grows(nodes, i, j - 1);
    }
}

/// By their places in the tree, nodes that run side by side do not wait for each other: what a work
/// node of child `i` waits for stands before all children, or is a work node of the same child.
pub proof fn parallel_children_are_independent(
    nodes: Seq<PlanNode>,
    n: int,
    base: int,
    before: Set<int>,
    i: int,
    x: int,
)
    requires
        0 <= i < n <= nodes.len(),
        base + work_of_first(nodes, i).len() <= x < base + work_of_first(nodes, i + 1).len(),
    ensures
        x - base < waits_in_parallel(nodes, n, base, before).len(),
        forall|w: int| #[trigger]
            waits_in_parallel(nodes, n, base, before)[x - base].contains(w) ==> before.contains(w)
                || base + work_of_first(nodes, i).len() <= w < x,
    decreases n,
{
    let created = work_of_first(nodes, n - 1).len();
    let earlier = waits_in_parallel(nodes, n - 1, base, before);
    let here = waits(nodes[n - 1], base + created, before);
    lemma_parallel_len(nodes, n - 1, base, before);
    lemma_work_grows(nodes, i + 1, n);
    if i < n - 1 {
        lemma_work_grows(nodes, i + 1, n - 1);
        parallel_children_are_independent(nodes, n - 1, base, before, i, x);
        assert((earlier + here)[x - base] == earlier[x - base]);
    } else {
        waits_stay_inside(nodes[n - 1], base + created, before);
        waits_for_each(nodes[n - 1], base + created, before);
        assert((earlier + here)[x - base] == here[x - base - created]);
    }
}

/// Positions on which two sets agree are listed alike.
proof fn lemma_ascending_agrees(a: Set<int>, b: Set<int>, n: int)
    requires
        forall|i: int| 0 <= i < n ==> (#[trigger] a.contains(i) <==> b.contains(i)),
    ensures
        ascending(a, n) == ascending(b, n),
    decreases n,
{
    if n > 0 {
        lemma_ascending_agrees(a, b, n - 1);
        assert(a.contains(n - 1) <==> b.contains(n - 1));
    }
}

/// More positions are listed behind those that are there.
proof fn lemma_ascending_grows(set: Set<int>, n: int, m: int)
    requires
        0 <= n <= m <= usize::MAX,
    ensures
        ascending(set, n).len() <= ascending(set, m).len(),
        ascending(set, m).take(ascending(set, n).len() as int) == ascending(set, n),
        forall|k: int|
            ascending(set, n).len() <= k < ascending(set, m).len() ==> n <= #[trigger] ascending(
                set,
                m,
            )[k] && set.contains(ascending(set, m)[k] as int),
    decreases m,
{
    let few = ascending(set, n);
    if n < m {
        lemma_ascending_grows(set, n, m - 1);
        assert(ascending(set, m).take(few.len() as int) =~= ascending(set, m - 1).take(
            few.len() as int,
        ));
    } else {
        assert(few.take(few.len() as int) =~= few);
    }
}

/// Adding the work nodes under a node to those that are there changes nothing of what these wait
/// for. Of the lists of who waits for them, only those of the nodes that stand `before` grow, at
/// their ends and by new nodes. A node without work adds nothing.
pub proof fn adding_nodes_keeps_the_others(
    earlier: Seq<Set<int>>,
    node: PlanNode,
    before: Set<int>,
    i: int,
)
    requires
        0 <= i < earlier.len(),
        earlier.len() + work(node).len() <= usize::MAX,
    ensures
        ({
            let all = earlier + waits(node, earlier.len() as int, before);
            let list = waiting_for(earlier, i);
            &&& all.len() == earlier.len() + work(node).len()
            &&& all.take(earlier.len() as int) == earlier
            &&& list.len() <= waiting_for(all, i).len()
            &&& waiting_for(all, i).take(list.len() as int) == list
            &&& forall|k: int|
                list.len() <= k < waiting_for(all, i).len() ==> #[trigger] waiting_for(all, i)[k]
                    >= earlier.len()
            &&& !before.contains(i) ==> waiting_for(all, i) == list
            &&& work(node).len() == 0 ==> all == earlier && ends(node, earlier.len() as int, before)
                == before
        }),
{
    let n = earlier.len() as int;
    let new = waits(node, n, before);
    let all = earlier + new;
    waits_for_each(node, n, before);
    waits_stay_inside(node, n, before);
    ends_are_inside(node, n, before);
    assert(all.take(n) =~= earlier);
    assert(work(node).len() == 0 ==> all =~= earlier);
    let set = dependents_of(all, i);
    assert forall|d: int| 0 <= d < n implies (#[trigger] dependents_of(earlier, i).contains(d)
        <==> set.contains(d)) by {
        assert(all[d] == earlier[d]);
    }
    lemma_ascending_agrees(dependents_of(earlier, i), set, n);
    lemma_ascending_grows(set, n, all.len() as int);
    if !before.contains(i) {
        let more = waiting_for(all, i);
        if more.len() > waiting_for(earlier, i).len() {
            let d = more[waiting_for(earlier, i).len() as int] as int;
            assert(set.contains(d));
            assert(all[d] == new[d - n]);
            assert(new[d - n].contains(i));
        }
        assert(more =~= more.take(waiting_for(earlier, i).len() as int));
    }
}

/// Whether all work under a node is scheduled: taking its groups apart leads to no subscription and
/// no deferred plan.
pub open spec fn scheduled_whole(node: PlanNode) -> bool
    decreases node,
{
    match node {
        PlanNode::Sequence(sequence) => forall|i: int|
            0 <= i < sequence.nodes@.len() ==> scheduled_whole(#[trigger] sequence.nodes@[i]),
        PlanNode::Parallel(parallel) => forall|i: int|
            0 <= i < parallel.nodes@.len() ==> scheduled_whole(#[trigger] parallel.nodes@[i]),
        PlanNode::Subscription(_) | PlanNode::Defer(_) => false,
        _ => true,
    }
}

/// The work nodes hold the fetches of the plan, none missing, none twice, in their order.
pub proof fn work_holds_all_fetches(node: PlanNode)
    requires
        scheduled_whole(node),
    ensures
        fetches_of_first(work(node), work(node).len() as int) == fetches(node),
    decreases node, 1int,
{
    match node {
        PlanNode::Sequence(sequence) => {
            lemma_work_of_first_holds(sequence.nodes@, sequence.nodes@.len() as int);
        },
        PlanNode::Parallel(parallel) => {
            lemma_work_of_first_holds(parallel.nodes@, parallel.nodes@.len() as int);
        },
        _ => {
            reveal_with_fuel(fetches_of_first, 2);
            assert(fetches_of_first(work(node), 1) =~= fetches(node));
        },
    }
}

proof fn lemma_work_of_first_holds(nodes: Seq<PlanNode>, n: int)
    requires
        0 <= n <= nodes.len(),
        forall|i: int| 0 <= i < nodes.len() ==> scheduled_whole(#[trigger] nodes[i]),
    ensures
        fetches_of_first(work_of_first(nodes, n), work_of_first(nodes, n).len() as int)
            == fetches_of_first(nodes, n),
    decreases nodes, n,
{
    if n > 0 {
        let before = work_of_first(nodes, n - 1);
        let here = work(nodes[n - 1]);
        lemma_work_of_first_holds(nodes, n - 1);
        work_holds_all_fetches(nodes[n - 1]);
        lemma_fetches_concat(before, here, here.len() as int);
    }
}

proof fn lemma_fetches_concat(a: Seq<PlanNode>, b: Seq<PlanNode>, n: int)
    requires
        0 <= n <= b.len(),
    ensures
        fetches_of_first(a + b, a.len() + n) == fetches_of_first(a, a.len() as int)
            + fetches_of_first(b, n),
    decreases n,
{
    if n == 0 {
        lemma_fetches_prefix(a, b, a.len() as int);
        assert(fetches_of_first(a, a.len() as int) + fetches_of_first(b, 0) =~= fetches_of_first(
            a,
            a.len() as int,
        ));
    } else {
        lemma_fetches_concat(a, b, n - 1);
        assert((a + b)[a.len() + n - 1] == b[n - 1]);
        assert(fetches_of_first(a + b, a.len() + n) =~= fetches_of_first(a, a.len() as int)
            + fetches_of_first(b, n));
    }
}

proof fn lemma_fetches_prefix(a: Seq<PlanNode>, b: Seq<PlanNode>, n: int)
    requires
        0 <= n <= a.len(),
    ensures
        fetches_of_first(a + b, n) == fetches_of_first(a, n),
    decreases n,
{
    if n > 0 {
        lemma_fetches_prefix(a, b, n - 1);
        assert((a + b)[n - 1] == a[n - 1]);
    }
}

} // verus!
