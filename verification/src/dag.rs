//! Scheduling of plan nodes.
//!
//! [`DagScheduler`] compiles a plan tree into the DAG that [`crate::order`] describes, and counts
//! what each node still waits for.

use vstd::prelude::*;
use std::collections::VecDeque;

use crate::order::{
    ascending, ascending_is_exact, ascending_is_unique, dependents_of, depends, ends,
    ends_are_inside, ends_in_parallel, ends_in_sequence, explicit, free, free_set, freed, freed_set,
    holds_fetch, id_set, id_set_is_exact, increasing, inside, needs_fetch, plan_waits, waiting_for,
    waits, waits_in_parallel, waits_in_sequence, with_explicit, within, work, work_of_first,
    DagNodeId,
};
use crate::plan_nodes::{collect_fetches, fetches, referred, FetchNode, PlanNode};

verus! {

/// Represents a node in the execution DAG.
struct DagNode<'exec> {
    /// The plan node to execute
    plan_node: &'exec PlanNode,
    /// Nodes that must complete before this node can run, in ascending order
    dependencies: Vec<DagNodeId>,
    /// Nodes that depend on this node (to notify when this completes), in ascending order
    dependents: Vec<DagNodeId>,
}

/// What DAG nodes wait for.
spec fn waits_of(nodes: Seq<DagNode>) -> Seq<Set<int>> {
    nodes.map_values(|node: DagNode| id_set(node.dependencies@))
}

/// The plan nodes behind DAG nodes.
spec fn plan_of(nodes: Seq<DagNode>) -> Seq<PlanNode> {
    nodes.map_values(|node: DagNode| *node.plan_node)
}

/// Whether IDs come in ascending order, each of them once, and are below `n`.
spec fn are_ids(ids: Seq<DagNodeId>, n: int) -> bool {
    &&& increasing(ids)
    &&& forall|k: int| 0 <= k < ids.len() ==> (#[trigger] ids[k]) < n
}

/// Whether the dependencies of DAG nodes are lists of their IDs, in order.
spec fn ordered(nodes: Seq<DagNode>) -> bool {
    forall|i: int|
        0 <= i < nodes.len() ==> are_ids((#[trigger] nodes[i]).dependencies@, nodes.len() as int)
}

/// Whether no dependents are known yet.
spec fn unlinked(nodes: Seq<DagNode>) -> bool {
    forall|i: int| 0 <= i < nodes.len() ==> (#[trigger] nodes[i]).dependents@.len() == 0
}

/// Whether the dependents of each DAG node are those that wait for it.
spec fn linked(nodes: Seq<DagNode>) -> bool {
    forall|i: int|
        0 <= i < nodes.len() ==> (#[trigger] nodes[i]).dependents@ == waiting_for(
            waits_of(nodes),
            i,
        )
}

/// How many of the nodes in a set are not done.
spec fn left(set: Set<int>, done: Set<int>) -> nat {
    set.difference(done).len()
}

/// A set has nothing left exactly where it is done.
proof fn lemma_none_left(set: Set<int>, done: Set<int>)
    requires
        set.finite(),
    ensures
        left(set, done) == 0 <==> set.subset_of(done),
{
    let rest = set.difference(done);
    if set.subset_of(done) {
        assert(rest =~= Set::empty());
    }
    if rest.len() == 0 {
        assert forall|i: int| set.contains(i) implies done.contains(i) by {
            if !done.contains(i) {
                assert(rest.contains(i));
                assert(rest.remove(i).len() == rest.len() - 1);
            }
        }
    }
}

/// Completing a node leaves one less of the sets that it is in, and as many of the others.
proof fn lemma_one_less(set: Set<int>, done: Set<int>, id: int)
    requires
        set.finite(),
    ensures
        set.contains(id) && !done.contains(id) ==> left(set, done) > 0 && left(
            set,
            done.insert(id),
        ) == left(set, done) - 1,
        !set.contains(id) || done.contains(id) ==> left(set, done.insert(id)) == left(set, done),
{
    let rest = set.difference(done);
    if set.contains(id) && !done.contains(id) {
        assert(set.difference(done.insert(id)) =~= rest.remove(id));
        assert(rest.contains(id));
    } else {
        assert(set.difference(done.insert(id)) =~= rest);
    }
}

/// DAG scheduler for parallel execution
pub struct DagScheduler<'exec> {
    /// All nodes in the DAG
    nodes: Vec<DagNode<'exec>>,
    /// Current dependency counts (decremented as dependencies complete)
    remaining_deps: Vec<usize>,
    /// Queue of nodes ready to execute (have zero dependencies)
    ready_queue: VecDeque<DagNodeId>,
    /// The nodes that were marked as completed.
    done: Ghost<Set<int>>,
}

impl<'exec> DagScheduler<'exec> {
    /// The work nodes.
    pub closed spec fn plan(&self) -> Seq<PlanNode> {
        plan_of(self.nodes@)
    }

    /// What each work node waits for.
    pub closed spec fn waits(&self) -> Seq<Set<int>> {
        waits_of(self.nodes@)
    }

    /// The nodes that were marked as completed.
    pub closed spec fn done(&self) -> Set<int> {
        self.done@
    }

    /// The nodes in the ready queue, the next one first.
    pub closed spec fn ready(&self) -> Seq<DagNodeId> {
        self.ready_queue@
    }

    /// The scheduler counts, for each node, what it waits for and is not completed yet.
    pub closed spec fn wf(&self) -> bool {
        &&& ordered(self.nodes@)
        &&& linked(self.nodes@)
        &&& self.remaining_deps@.len() == self.nodes@.len()
        &&& forall|i: int|
            0 <= i < self.nodes@.len() ==> #[trigger] self.remaining_deps@[i] == left(
                waits_of(self.nodes@)[i],
                self.done@,
            )
    }

    /// What holds of the DAG of any scheduler.
    pub proof fn facts(&self)
        requires
            self.wf(),
        ensures
            self.waits().len() == self.plan().len(),
            self.plan().len() <= usize::MAX,
            inside(self.waits()),
    {
        assert(self.nodes.len() == self.nodes@.len());
        lemma_waits_inside(self.nodes@);
    }

    /// Compile a PlanNode tree into a DAG. At first exactly the nodes that wait for nothing are
    /// ready, in the order of the plan.
    pub fn compile(root: &'exec PlanNode) -> (scheduler: Self)
        ensures
            scheduler.wf(),
            scheduler.plan() == work(*root),
            scheduler.waits() == plan_waits(*root),
            scheduler.done() == Set::<int>::empty(),
            scheduler.ready() == free(plan_waits(*root)),
    {
        let mut nodes: Vec<DagNode<'exec>> = Vec::new();
        let before: Vec<DagNodeId> = Vec::new();
        proof {
            id_set_is_exact(before@);
            assert(id_set(before@) =~= Set::empty());
            assert(plan_of(nodes@) + work(*root) =~= work(*root));
            assert(waits_of(nodes@) + waits(*root, 0, Set::empty()) =~= waits(
                *root,
                0,
                Set::empty(),
            ));
        }
        // Build DAG from plan tree
        Self::compile_node(root, &mut nodes, &before);
        Self::add_explicit(&mut nodes);
        Self::link(&mut nodes);
        let ghost waits = waits_of(nodes@);
        assert(waits =~= plan_waits(*root));
        // Initialize remaining dependency counts, and the ready queue with ALL nodes that have no
        // dependencies
        let mut remaining_deps: Vec<usize> = Vec::new();
        let mut ready_queue: VecDeque<DagNodeId> = VecDeque::new();
        for node_id in 0..nodes.len()
            invariant
                ordered(nodes@),
                waits == waits_of(nodes@),
                remaining_deps@.len() == node_id,
                forall|i: int|
                    0 <= i < node_id ==> #[trigger] remaining_deps@[i] == left(
                        waits[i],
                        Set::empty(),
                    ),
                ready_queue@ == ascending(free_set(waits), node_id as int),
        {
            let dependency_count = nodes[node_id].dependencies.len();
            proof {
                let set = waits[node_id as int];
                assert(are_ids(nodes@[node_id as int].dependencies@, nodes@.len() as int));
                id_set_is_exact(nodes@[node_id as int].dependencies@);
                assert(set.difference(Set::empty()) =~= set);
                lemma_none_left(set, Set::empty());
                if set.subset_of(Set::empty()) {
                    assert(set =~= Set::empty());
                }
            }
            remaining_deps.push(dependency_count);
            if dependency_count == 0 {
                ready_queue.push_back(node_id);
            }
        }
        DagScheduler { nodes, remaining_deps, ready_queue, done: Ghost(Set::empty()) }
    }

    /// Mark a node as completed and return newly ready nodes: those that wait for it and for nothing
    /// else that is not completed. An ID that no node has changes nothing. A node that others wait
    /// for is completed once only: their counts would fall below zero.
    pub fn complete_node(&mut self, node_id: DagNodeId) -> (newly_ready: Vec<DagNodeId>)
        requires
            old(self).wf(),
            old(self).done().contains(node_id as int) ==> waiting_for(
                old(self).waits(),
                node_id as int,
            ).len() == 0,
        ensures
            final(self).wf(),
            final(self).plan() == old(self).plan(),
            final(self).waits() == old(self).waits(),
            final(self).ready() == old(self).ready(),
            node_id < old(self).plan().len() ==> {
                &&& final(self).done() == old(self).done().insert(node_id as int)
                &&& newly_ready@ == freed(old(self).waits(), old(self).done(), node_id as int)
            },
            node_id >= old(self).plan().len() ==> {
                &&& final(self).done() == old(self).done()
                &&& newly_ready@.len() == 0
            },
    {
        let mut newly_ready: Vec<DagNodeId> = Vec::new();
        if node_id >= self.nodes.len() {
            return newly_ready;
        }
        let ghost nodes = self.nodes@;
        let ghost waits = waits_of(nodes);
        let ghost id = node_id as int;
        let ghost done = self.done@;
        let ghost now = done.insert(id);
        let ghost before = self.remaining_deps@;
        let ghost dependents = waiting_for(waits, id);
        let ghost n = nodes.len() as int;
        assert(nodes[id].dependents@ == dependents);
        proof {
            assert(self.nodes.len() == n);
            ascending_is_exact(dependents_of(waits, id), n);
            lemma_waits_finite(nodes);
            assert forall|k: int| 0 <= k < dependents.len() implies before[#[trigger] dependents[k] as int]
                > 0 && left(waits[dependents[k] as int], now) == before[dependents[k] as int] - 1 by {
                lemma_one_less(waits[dependents[k] as int], done, id);
            }
        }
        // Notify all dependents
        let count = self.nodes[node_id].dependents.len();
        for k in 0..count
            invariant
                node_id < nodes.len(),
                id == node_id,
                n == nodes.len(),
                n <= usize::MAX,
                count == dependents.len(),
                self.nodes@ == nodes,
                self.nodes == old(self).nodes,
                self.done == old(self).done,
                self.ready_queue == old(self).ready_queue,
                waits == waits_of(nodes),
                now == done.insert(id),
                dependents == nodes[id].dependents@,
                increasing(dependents),
                forall|k: int|
                    0 <= k < dependents.len() ==> (#[trigger] dependents[k]) < n && waits[dependents[k] as int].contains(
                        id,
                    ),
                forall|i: int| 0 <= i < n ==> (#[trigger] waits[i]).finite(),
                before.len() == n,
                forall|k: int|
                    0 <= k < dependents.len() ==> before[#[trigger] dependents[k] as int] > 0
                        && left(waits[dependents[k] as int], now) == before[dependents[k] as int] - 1,
                self.remaining_deps@.len() == n,
                forall|i: int|
                    0 <= i < n ==> #[trigger] self.remaining_deps@[i] == (if dependents.take(
                        k as int,
                    ).contains(i as usize) {
                        before[i] - 1
                    } else {
                        before[i] as int
                    }),
                increasing(newly_ready@),
                forall|m: int|
                    0 <= m < newly_ready@.len() ==> freed_set(waits, done, id).contains(
                        (#[trigger] newly_ready@[m]) as int,
                    ) && newly_ready@[m] < n && dependents.take(k as int).contains(newly_ready@[m]),
                forall|m: int|
                    0 <= m < k && freed_set(waits, done, id).contains(
                        (#[trigger] dependents[m]) as int,
                    ) ==> newly_ready@.contains(dependents[m]),
        {
            let ghost earlier = dependents.take(k as int);
            let ghost next = dependents.take(k + 1);
            let ghost listed = newly_ready@;
            let dependent_id = self.nodes[node_id].dependents[k];
            assert(dependent_id == dependents[k as int]);
            proof {
                assert(next =~= earlier.push(dependent_id));
                if earlier.contains(dependent_id) {
                    let m = earlier.index_of(dependent_id);
                    assert(dependents[m] < dependents[k as int]);
                }
                lemma_none_left(waits[dependent_id as int], now);
            }
            let remaining = self.remaining_deps[dependent_id] - 1;
            self.remaining_deps[dependent_id] = remaining;
            // If dependent now has zero dependencies, it's ready
            if remaining == 0 {
                newly_ready.push(dependent_id);
            }
            proof {
                assert forall|i: int| 0 <= i < n implies #[trigger] self.remaining_deps@[i] == (
                if next.contains(i as usize) {
                    before[i] - 1
                } else {
                    before[i] as int
                }) by {
                    if earlier.contains(i as usize) {
                        assert(next[earlier.index_of(i as usize)] == i as usize);
                    } else if i == dependent_id {
                        assert(next[k as int] == dependent_id);
                    } else if next.contains(i as usize) {
                        let m = next.index_of(i as usize);
                        assert(earlier[m] == i as usize);
                    }
                }
                assert forall|m: int| 0 <= m < newly_ready@.len() implies freed_set(
                    waits,
                    done,
                    id,
                ).contains((#[trigger] newly_ready@[m]) as int) && newly_ready@[m] < n
                    && next.contains(newly_ready@[m]) by {
                    if m < listed.len() {
                        assert(newly_ready@[m] == listed[m]);
                        assert(next[earlier.index_of(listed[m])] == listed[m]);
                    } else {
                        assert(next[k as int] == dependent_id);
                    }
                }
                assert forall|i: int, j: int| 0 <= i < j < newly_ready@.len() implies newly_ready@[i]
                    < newly_ready@[j] by {
                    if j == listed.len() {
                        assert(newly_ready@[i] == listed[i]);
                        let m = earlier.index_of(listed[i]);
                        assert(dependents[m] < dependents[k as int]);
                    }
                }
                assert forall|m: int|
                    0 <= m < k + 1 && freed_set(waits, done, id).contains(
                        (#[trigger] dependents[m]) as int,
                    ) implies newly_ready@.contains(dependents[m]) by {
                    if m < k {
                        assert(listed.contains(dependents[m]));
                        assert(newly_ready@[listed.index_of(dependents[m])] == dependents[m]);
                    } else {
                        assert(newly_ready@[listed.len() as int] == dependent_id);
                    }
                }
            }
        }
        proof {
            assert(dependents.take(dependents.len() as int) =~= dependents);
            assert forall|d: DagNodeId| d < n && freed_set(waits, done, id).contains(
                d as int,
            ) implies #[trigger] newly_ready@.contains(d) by {
                assert(dependents_of(waits, id).contains(d as int));
                assert(dependents.contains(d));
                assert(dependents[dependents.index_of(d)] == d);
            }
            ascending_is_unique(newly_ready@, freed_set(waits, done, id), n);
            self.done@ = now;
            assert forall|i: int| 0 <= i < n implies #[trigger] self.remaining_deps@[i] == left(
                waits[i],
                now,
            ) by {
                lemma_one_less(waits[i], done, id);
                if waits[i].contains(id) {
                    assert(dependents.contains(i as usize));
                    assert(dependents[dependents.index_of(i as usize)] == i as usize);
                } else if dependents.contains(i as usize) {
                    assert(dependents[dependents.index_of(i as usize)] == i as usize);
                }
            }
        }
        newly_ready
    }

    /// Takes the next node out of the ready queue.
    pub fn next_ready(&mut self) -> (next: Option<DagNodeId>)
        requires
            old(self).wf(),
        ensures
            final(self).wf(),
            final(self).plan() == old(self).plan(),
            final(self).waits() == old(self).waits(),
            final(self).done() == old(self).done(),
            match next {
                Some(id) => old(self).ready() == seq![id] + final(self).ready(),
                None => old(self).ready().len() == 0 && final(self).ready() == old(self).ready(),
            },
    {
        let ghost before = self.ready_queue@;
        let next = self.ready_queue.pop_front();
        proof {
            if let Some(id) = next {
                assert(before =~= seq![id] + self.ready_queue@);
            }
        }
        next
    }

    /// Puts nodes at the end of the ready queue.
    pub fn extend_ready(&mut self, ids: Vec<DagNodeId>)
        requires
            old(self).wf(),
        ensures
            final(self).wf(),
            final(self).plan() == old(self).plan(),
            final(self).waits() == old(self).waits(),
            final(self).done() == old(self).done(),
            final(self).ready() == old(self).ready() + ids@,
    {
        let ghost before = self.ready_queue@;
        for i in 0..ids.len()
            invariant
                self.nodes == old(self).nodes,
                self.remaining_deps == old(self).remaining_deps,
                self.done == old(self).done,
                self.ready_queue@ == before + ids@.take(i as int),
        {
            self.ready_queue.push_back(ids[i]);
            assert(before + ids@.take(i as int).push(ids@[i as int]) =~= before + ids@.take(i + 1));
            assert(self.ready_queue@ =~= before + ids@.take(i + 1));
        }
        assert(ids@.take(ids@.len() as int) =~= ids@);
    }

    /// The plan node behind a node of the DAG.
    pub fn plan_node(&self, id: DagNodeId) -> (node: &'exec PlanNode)
        requires
            id < self.plan().len(),
        ensures
            *node == self.plan()[id as int],
    {
        self.nodes[id].plan_node
    }

    /// Recursively compile a plan node into DAG nodes, of which the first ones wait for what stands
    /// before. Gives the nodes that must complete for the plan node to be complete; where no nodes
    /// were created, those that stand before.
    fn compile_node(
        node: &'exec PlanNode,
        nodes: &mut Vec<DagNode<'exec>>,
        before: &Vec<DagNodeId>,
    ) -> (last: Vec<DagNodeId>)
        requires
            ordered(old(nodes)@),
            unlinked(old(nodes)@),
            are_ids(before@, old(nodes)@.len() as int),
        ensures
            ordered(final(nodes)@),
            unlinked(final(nodes)@),
            waits_of(final(nodes)@) == waits_of(old(nodes)@) + waits(
                *node,
                old(nodes)@.len() as int,
                id_set(before@),
            ),
            plan_of(final(nodes)@) == plan_of(old(nodes)@) + work(*node),
            are_ids(last@, final(nodes)@.len() as int),
            id_set(last@) == ends(*node, old(nodes)@.len() as int, id_set(before@)),
        decreases node,
    {
        match node {
            PlanNode::Sequence(sequence) => Self::compile_sequence(&sequence.nodes, nodes, before),
            PlanNode::Parallel(parallel) => Self::compile_parallel(&parallel.nodes, nodes, before),
            PlanNode::Fetch(_) | PlanNode::Flatten(_) | PlanNode::Condition(_) => {
                let node_id = nodes.len();
                Self::add_node(node, nodes, before);
                let mut last: Vec<DagNodeId> = Vec::new();
                last.push(node_id);
                proof {
                    id_set_is_exact(last@);
                    assert(last@[0] == node_id);
                    assert(id_set(last@) =~= set![node_id as int]);
                }
                last
            },
            _ => {
                let last = before.clone();
                proof {
                    assert(last@ =~= before@);
                    assert(waits_of(nodes@) + Seq::<Set<int>>::empty() =~= waits_of(nodes@));
                    assert(plan_of(nodes@) + Seq::<PlanNode>::empty() =~= plan_of(nodes@));
                }
                last
            },
        }
    }

    /// For sequence: create chain where each node depends on previous
    fn compile_sequence(
        children: &'exec Vec<PlanNode>,
        nodes: &mut Vec<DagNode<'exec>>,
        before: &Vec<DagNodeId>,
    ) -> (last: Vec<DagNodeId>)
        requires
            ordered(old(nodes)@),
            unlinked(old(nodes)@),
            are_ids(before@, old(nodes)@.len() as int),
        ensures
            ordered(final(nodes)@),
            unlinked(final(nodes)@),
            waits_of(final(nodes)@) == waits_of(old(nodes)@) + waits_in_sequence(
                children@,
                children@.len() as int,
                old(nodes)@.len() as int,
                id_set(before@),
            ),
            plan_of(final(nodes)@) == plan_of(old(nodes)@) + work_of_first(
                children@,
                children@.len() as int,
            ),
            are_ids(last@, final(nodes)@.len() as int),
            id_set(last@) == ends_in_sequence(
                children@,
                children@.len() as int,
                old(nodes)@.len() as int,
                id_set(before@),
            ),
        decreases children,
    {
        let ghost base = nodes@.len() as int;
        let ghost plan = plan_of(nodes@);
        let ghost waits = waits_of(nodes@);
        let ghost start = id_set(before@);
        let mut prev = before.clone();
        proof {
            assert(prev@ =~= before@);
            assert(waits + waits_in_sequence(children@, 0, base, start) =~= waits);
            assert(plan + work_of_first(children@, 0) =~= plan);
        }
        for i in 0..children.len()
            invariant
                ordered(nodes@),
                unlinked(nodes@),
                plan.len() == base,
                waits_of(nodes@) == waits + waits_in_sequence(children@, i as int, base, start),
                plan_of(nodes@) == plan + work_of_first(children@, i as int),
                are_ids(prev@, nodes@.len() as int),
                id_set(prev@) == ends_in_sequence(children@, i as int, base, start),
        {
            let ghost so_far = waits_in_sequence(children@, i as int, base, start);
            let ghost created = work_of_first(children@, i as int);
            let ghost position = nodes@.len() as int;
            let ghost mid = id_set(prev@);
            assert(plan_of(nodes@).len() == nodes@.len());
            prev = Self::compile_node(&children[i], nodes, &prev);
            proof {
                let child = children@[i as int];
                assert(position == base + created.len());
                assert(waits + so_far + crate::order::waits(child, position, mid) =~= waits + (
                so_far + crate::order::waits(child, position, mid)));
                assert(plan + created + work(child) =~= plan + (created + work(child)));
            }
        }
        prev
    }

    /// For parallel: all children depend on what stands before, but not on each other
    fn compile_parallel(
        children: &'exec Vec<PlanNode>,
        nodes: &mut Vec<DagNode<'exec>>,
        before: &Vec<DagNodeId>,
    ) -> (last: Vec<DagNodeId>)
        requires
            ordered(old(nodes)@),
            unlinked(old(nodes)@),
            are_ids(before@, old(nodes)@.len() as int),
        ensures
            ordered(final(nodes)@),
            unlinked(final(nodes)@),
            waits_of(final(nodes)@) == waits_of(old(nodes)@) + waits_in_parallel(
                children@,
                children@.len() as int,
                old(nodes)@.len() as int,
                id_set(before@),
            ),
            plan_of(final(nodes)@) == plan_of(old(nodes)@) + work_of_first(
                children@,
                children@.len() as int,
            ),
            are_ids(last@, final(nodes)@.len() as int),
            id_set(last@) == (if work_of_first(children@, children@.len() as int).len() == 0 {
                id_set(before@)
            } else {
                ends_in_parallel(
                    children@,
                    children@.len() as int,
                    old(nodes)@.len() as int,
                    id_set(before@),
                )
            }),
        decreases children,
    {
        let ghost base = nodes@.len() as int;
        let ghost plan = plan_of(nodes@);
        let ghost waits = waits_of(nodes@);
        let ghost start = id_set(before@);
        let first_id = nodes.len();
        let mut last: Vec<DagNodeId> = Vec::new();
        proof {
            id_set_is_exact(last@);
            assert(id_set(last@) =~= Set::empty());
            assert(waits + waits_in_parallel(children@, 0, base, start) =~= waits);
            assert(plan + work_of_first(children@, 0) =~= plan);
        }
        // Process all children with the same nodes before them so they execute in parallel
        for i in 0..children.len()
            invariant
                ordered(nodes@),
                unlinked(nodes@),
                plan.len() == base,
                base <= nodes@.len(),
                start == id_set(before@),
                are_ids(before@, base),
                waits_of(nodes@) == waits + waits_in_parallel(children@, i as int, base, start),
                plan_of(nodes@) == plan + work_of_first(children@, i as int),
                are_ids(last@, nodes@.len() as int),
                id_set(last@) == ends_in_parallel(children@, i as int, base, start),
        {
            let ghost so_far = waits_in_parallel(children@, i as int, base, start);
            let ghost created = work_of_first(children@, i as int);
            let ghost position = nodes@.len() as int;
            let ghost earlier = last@;
            let ghost child = children@[i as int];
            assert(plan_of(nodes@).len() == nodes@.len());
            let next_id = nodes.len();
            let mut child_last = Self::compile_node(&children[i], nodes, before);
            let ghost more = child_last@;
            proof {
                assert(position == base + created.len());
                assert(waits + so_far + crate::order::waits(child, position, start) =~= waits + (
                so_far + crate::order::waits(child, position, start)));
                assert(plan + created + work(child) =~= plan + (created + work(child)));
                assert(plan_of(nodes@).len() == nodes@.len());
                ends_are_inside(child, position, start);
            }
            if nodes.len() > next_id {
                last.append(&mut child_last);
                proof {
                    lemma_ids_concat(earlier, more, position, nodes@.len() as int);
                    assert(last@ =~= earlier + more);
                }
            }
        }
        assert(plan_of(nodes@).len() == nodes@.len());
        if nodes.len() == first_id {
            last = before.clone();
            assert(last@ =~= before@);
        }
        last
    }

    /// Adds a work node that waits for what stands before.
    fn add_node(
        node: &'exec PlanNode,
        nodes: &mut Vec<DagNode<'exec>>,
        before: &Vec<DagNodeId>,
    )
        requires
            ordered(old(nodes)@),
            unlinked(old(nodes)@),
            are_ids(before@, old(nodes)@.len() as int),
        ensures
            ordered(final(nodes)@),
            unlinked(final(nodes)@),
            final(nodes)@.len() == old(nodes)@.len() + 1,
            waits_of(final(nodes)@) == waits_of(old(nodes)@) + seq![id_set(before@)],
            plan_of(final(nodes)@) == plan_of(old(nodes)@) + seq![*node],
    {
        let ghost earlier = nodes@;
        let dependencies = before.clone();
        assert(dependencies@ =~= before@);
        nodes.push(DagNode { plan_node: node, dependencies, dependents: Vec::new() });
        proof {
            assert(plan_of(nodes@) =~= plan_of(earlier) + seq![*node]);
            assert(waits_of(nodes@) =~= waits_of(earlier) + seq![id_set(before@)]);
            assert forall|i: int| 0 <= i < nodes@.len() implies are_ids(
                (#[trigger] nodes@[i]).dependencies@,
                nodes@.len() as int,
            ) by {
                if i < earlier.len() {
                    assert(are_ids(earlier[i].dependencies@, earlier.len() as int));
                }
            }
        }
    }

    /// Lets nodes wait for what their fetches depend on explicitly.
    fn add_explicit(nodes: &mut Vec<DagNode<'exec>>)
        requires
            ordered(old(nodes)@),
            unlinked(old(nodes)@),
        ensures
            ordered(final(nodes)@),
            unlinked(final(nodes)@),
            plan_of(final(nodes)@) == plan_of(old(nodes)@),
            waits_of(final(nodes)@) == with_explicit(plan_of(old(nodes)@), waits_of(old(nodes)@)),
    {
        let ghost plan = plan_of(nodes@);
        let ghost waits = waits_of(nodes@);
        let ghost target = with_explicit(plan, waits);
        let count = nodes.len();
        let mut held: Vec<Vec<i64>> = Vec::new();
        for i in 0..count
            invariant
                count == nodes@.len(),
                plan == plan_of(nodes@),
                held@.len() == i,
                forall|k: int, id: i64|
                    0 <= k < i ==> (#[trigger] held@[k]@.contains(id) <==> holds_fetch(plan[k], id)),
        {
            held.push(fetch_ids(nodes[i].plan_node));
        }
        proof {
            lemma_waits_inside(nodes@);
        }
        for j in 0..count
            invariant
                count == nodes@.len(),
                count == waits.len(),
                held@.len() == count,
                inside(waits),
                target == with_explicit(plan, waits),
                ordered(nodes@),
                unlinked(nodes@),
                plan == plan_of(nodes@),
                forall|k: int, id: i64|
                    0 <= k < count ==> (#[trigger] held@[k]@.contains(id) <==> holds_fetch(
                        plan[k],
                        id,
                    )),
                forall|k: int|
                    0 <= k < count ==> #[trigger] waits_of(nodes@)[k] == (if k < j {
                        target[k]
                    } else {
                        waits[k]
                    }),
        {
            let wanted = wanted_ids(nodes[j].plan_node);
            assert(*nodes@[j as int].plan_node == plan[j as int]);
            let ghost set = target[j as int];
            if wanted.len() > 0 {
                let mut merged: Vec<DagNodeId> = Vec::new();
                proof {
                    assert(waits_of(nodes@)[j as int] == waits[j as int]);
                    id_set_is_exact(nodes@[j as int].dependencies@);
                }
                for i in 0..count
                    invariant
                        count == nodes@.len(),
                        count == waits.len(),
                        held@.len() == count,
                        j < count,
                        plan.len() == count,
                        set == waits[j as int].union(explicit(plan, j as int)),
                        waits[j as int] == id_set(nodes@[j as int].dependencies@),
                        forall|id: i64|
                            wanted@.contains(id) <==> needs_fetch(plan[j as int], id),
                        forall|k: int, id: i64|
                            0 <= k < count ==> (#[trigger] held@[k]@.contains(id) <==> holds_fetch(
                                plan[k],
                                id,
                            )),
                        merged@ == ascending(set, i as int),
                {
                    let known = contains_id(&nodes[j].dependencies, i);
                    let named = i != j && share_id(&wanted, &held[i]);
                    proof {
                        id_set_is_exact(nodes@[j as int].dependencies@);
                        let dependencies = nodes@[j as int].dependencies@;
                        if known {
                            assert(dependencies[dependencies.index_of(i)] == i);
                        }
                        assert(known == waits[j as int].contains(i as int));
                        lemma_named(plan, j as int, i as int, wanted@, held@[i as int]@);
                        assert(set.contains(i as int) == (known || named));
                    }
                    if known || named {
                        merged.push(i);
                    }
                }
                let ghost before = nodes@;
                proof {
                    assert forall|i: int| #[trigger] set.contains(i) implies 0 <= i < count by {
                        if waits[j as int].contains(i) {
                        }
                    }
                    lemma_ascending_ids(set, count as int);
                }
                nodes[j].dependencies = merged;
                proof {
                    assert(plan_of(nodes@) =~= plan_of(before));
                    assert forall|k: int| 0 <= k < count implies are_ids(
                        (#[trigger] nodes@[k]).dependencies@,
                        count as int,
                    ) by {
                        if k != j {
                            assert(are_ids(before[k].dependencies@, count as int));
                        }
                    }
                    assert forall|k: int| 0 <= k < count implies #[trigger] waits_of(nodes@)[k] == (
                    if k < j + 1 {
                        target[k]
                    } else {
                        waits[k]
                    }) by {
                        assert(waits_of(before)[k] == (if k < j {
                            target[k]
                        } else {
                            waits[k]
                        }));
                    }
                    assert forall|k: int| 0 <= k < nodes@.len() implies (
                    #[trigger] nodes@[k]).dependents@.len() == 0 by {
                        assert(before[k].dependents@.len() == 0);
                    }
                }
            } else {
                proof {
                    assert forall|i: int| !explicit(plan, j as int).contains(i) by {
                        if explicit(plan, j as int).contains(i) {
                            let id = choose|id: i64| #[trigger]
                                needs_fetch(plan[j as int], id) && holds_fetch(plan[i], id);
                            assert(wanted@.contains(id));
                        }
                    }
                    assert(set =~= waits[j as int]);
                }
            }
        }
        assert(waits_of(nodes@) =~= target);
    }

    /// Tells each node which nodes depend on it.
    fn link(nodes: &mut Vec<DagNode<'exec>>)
        requires
            ordered(old(nodes)@),
            unlinked(old(nodes)@),
        ensures
            ordered(final(nodes)@),
            linked(final(nodes)@),
            plan_of(final(nodes)@) == plan_of(old(nodes)@),
            waits_of(final(nodes)@) == waits_of(old(nodes)@),
    {
        let ghost waits = waits_of(nodes@);
        let ghost plan = plan_of(nodes@);
        let count = nodes.len();
        assert forall|i: int| 0 <= i < count implies (#[trigger] nodes@[i]).dependents@ == ascending(
            dependents_of(waits, i),
            0,
        ) by {
            assert(nodes@[i].dependents@ =~= Seq::empty());
        }
        for j in 0..count
            invariant
                count == nodes@.len(),
                ordered(nodes@),
                waits == waits_of(nodes@),
                plan == plan_of(nodes@),
                forall|i: int|
                    0 <= i < count ==> (#[trigger] nodes@[i]).dependents@ == ascending(
                        dependents_of(waits, i),
                        j as int,
                    ),
        {
            let ghost dependencies = nodes@[j as int].dependencies@;
            let number = nodes[j].dependencies.len();
            assert(are_ids(dependencies, count as int));
            for k in 0..number
                invariant
                    j < count,
                    count == nodes@.len(),
                    ordered(nodes@),
                    waits == waits_of(nodes@),
                    plan == plan_of(nodes@),
                    dependencies == nodes@[j as int].dependencies@,
                    number == dependencies.len(),
                    are_ids(dependencies, count as int),
                    forall|i: int|
                        0 <= i < count ==> (#[trigger] nodes@[i]).dependents@ == ascending(
                            dependents_of(waits, i),
                            if dependencies.take(k as int).contains(i as usize) {
                                j + 1
                            } else {
                                j as int
                            },
                        ),
            {
                let ghost before = nodes@;
                let ghost earlier = dependencies.take(k as int);
                let ghost next = dependencies.take(k + 1);
                let dependency = nodes[j].dependencies[k];
                proof {
                    assert(dependency == dependencies[k as int]);
                    assert(dependency < count);
                    assert(next =~= earlier.push(dependency));
                    id_set_is_exact(dependencies);
                    assert(waits[j as int].contains(dependency as int));
                    assert(dependents_of(waits, dependency as int).contains(j as int));
                    if earlier.contains(dependency) {
                        let m = earlier.index_of(dependency);
                        assert(dependencies[m] < dependencies[k as int]);
                    }
                    assert(before[dependency as int].dependents@ == ascending(
                        dependents_of(waits, dependency as int),
                        j as int,
                    ));
                }
                nodes[dependency].dependents.push(j);
                proof {
                    assert(plan_of(nodes@) =~= plan_of(before));
                    assert(waits_of(nodes@) =~= waits_of(before));
                    assert forall|i: int| 0 <= i < nodes@.len() implies are_ids(
                        (#[trigger] nodes@[i]).dependencies@,
                        nodes@.len() as int,
                    ) by {
                        assert(are_ids(before[i].dependencies@, before.len() as int));
                    }
                    assert forall|i: int| 0 <= i < count implies (#[trigger] nodes@[i]).dependents@
                        == ascending(
                        dependents_of(waits, i),
                        if next.contains(i as usize) {
                            j + 1
                        } else {
                            j as int
                        },
                    ) by {
                        assert(before[i].dependents@ == ascending(
                            dependents_of(waits, i),
                            if earlier.contains(i as usize) {
                                j + 1
                            } else {
                                j as int
                            },
                        ));
                        if i == dependency {
                            assert(next[k as int] == dependency);
                        } else if earlier.contains(i as usize) {
                            assert(next[earlier.index_of(i as usize)] == i as usize);
                        } else if next.contains(i as usize) {
                            assert(earlier[next.index_of(i as usize)] == i as usize);
                        }
                    }
                }
            }
            proof {
                assert(dependencies.take(number as int) =~= dependencies);
                id_set_is_exact(dependencies);
                assert forall|i: int| 0 <= i < count implies (#[trigger] nodes@[i]).dependents@
                    == ascending(dependents_of(waits, i), j + 1) by {
                    if dependencies.contains(i as usize) {
                        assert(dependencies[dependencies.index_of(i as usize)] == i as usize);
                        assert(waits[j as int].contains(i));
                    } else {
                        assert(!waits[j as int].contains(i));
                    }
                }
            }
        }
    }
}

proof fn lemma_waits_finite(nodes: Seq<DagNode>)
    ensures
        forall|i: int| 0 <= i < nodes.len() ==> (#[trigger] waits_of(nodes)[i]).finite(),
{
    assert forall|i: int| 0 <= i < nodes.len() implies (#[trigger] waits_of(nodes)[i]).finite() by {
        id_set_is_exact(nodes[i].dependencies@);
    }
}

proof fn lemma_waits_inside(nodes: Seq<DagNode>)
    requires
        ordered(nodes),
    ensures
        inside(waits_of(nodes)),
{
    assert forall|j: int, i: int|
        0 <= j < nodes.len() && #[trigger] waits_of(nodes)[j].contains(i) implies 0 <= i
        < nodes.len() by {
        let ids = nodes[j].dependencies@;
        id_set_is_exact(ids);
        assert(are_ids(ids, nodes.len() as int));
        assert(ids[ids.index_of(i as usize)] == i as usize);
    }
}

/// IDs below a position and IDs from it on are together IDs in order.
proof fn lemma_ids_concat(a: Seq<DagNodeId>, b: Seq<DagNodeId>, middle: int, n: int)
    requires
        are_ids(a, middle),
        are_ids(b, n),
        middle <= n,
        within(id_set(b), middle, n),
    ensures
        are_ids(a + b, n),
        id_set(a + b) == id_set(a).union(id_set(b)),
{
    let both = a + b;
    id_set_is_exact(a);
    id_set_is_exact(b);
    id_set_is_exact(both);
    assert forall|k: int| 0 <= k < b.len() implies middle <= #[trigger] b[k] by {
        assert(id_set(b).contains(b[k] as int));
    }
    assert forall|j: int, k: int| 0 <= j < k < both.len() implies both[j] < both[k] by {
        if k < a.len() {
            assert(a[j] < a[k]);
        } else if j >= a.len() {
            assert(b[j - a.len()] < b[k - a.len()]);
        } else {
            assert(a[j] < middle);
            assert(middle <= b[k - a.len()]);
        }
    }
    assert forall|i: int| id_set(both).contains(i) <==> id_set(a).union(id_set(b)).contains(i) by {
        if id_set(both).contains(i) {
            let k = both.index_of(i as usize);
            if k < a.len() {
                assert(a[k] == i as usize);
            } else {
                assert(b[k - a.len()] == i as usize);
            }
        }
        if id_set(a).contains(i) {
            assert(both[a.index_of(i as usize)] == i as usize);
        }
        if id_set(b).contains(i) {
            assert(both[a.len() + b.index_of(i as usize)] == i as usize);
        }
    }
    assert(id_set(both) =~= id_set(a).union(id_set(b)));
}

/// The positions of a set, listed in order, stand for the set.
proof fn lemma_ascending_ids(set: Set<int>, n: int)
    requires
        0 <= n <= usize::MAX,
        forall|i: int| #[trigger] set.contains(i) ==> 0 <= i < n,
    ensures
        are_ids(ascending(set, n), n),
        id_set(ascending(set, n)) == set,
{
    let ids = ascending(set, n);
    ascending_is_exact(set, n);
    id_set_is_exact(ids);
    assert forall|i: int| id_set(ids).contains(i) <==> set.contains(i) by {
        if id_set(ids).contains(i) {
            assert(ids[ids.index_of(i as usize)] == i as usize);
        }
        if set.contains(i) {
            assert(ids.contains(i as usize));
            assert(ids[ids.index_of(i as usize)] == i as usize);
        }
    }
    assert(id_set(ids) =~= set);
}

/// Whether a node depends on another one shows in the IDs.
proof fn lemma_named(plan: Seq<PlanNode>, j: int, i: int, wanted: Seq<i64>, held: Seq<i64>)
    requires
        forall|id: i64| wanted.contains(id) <==> needs_fetch(plan[j], id),
        forall|id: i64| held.contains(id) <==> holds_fetch(plan[i], id),
    ensures
        depends(plan, j, i) <==> i != j && exists|id: i64| #[trigger]
            wanted.contains(id) && held.contains(id),
{
    if depends(plan, j, i) {
        let id = choose|id: i64| #[trigger] needs_fetch(plan[j], id) && holds_fetch(plan[i], id);
        assert(wanted.contains(id) && held.contains(id));
    }
    if exists|id: i64| #[trigger] wanted.contains(id) && held.contains(id) {
        let id = choose|id: i64| #[trigger] wanted.contains(id) && held.contains(id);
        assert(needs_fetch(plan[j], id) && holds_fetch(plan[i], id));
    }
}

/// The IDs of the fetches under a node.
fn fetch_ids(node: &PlanNode) -> (ids: Vec<i64>)
    ensures
        forall|id: i64| ids@.contains(id) <==> holds_fetch(*node, id),
{
    let mut list: Vec<&FetchNode> = Vec::new();
    collect_fetches(node, &mut list);
    let ghost all = fetches(*node);
    assert(referred(list@) =~= all);
    let mut ids: Vec<i64> = Vec::new();
    for i in 0..list.len()
        invariant
            referred(list@) == all,
            ids@.len() == i,
            forall|k: int| 0 <= k < i ==> #[trigger] ids@[k] == all[k].id,
    {
        assert(referred(list@)[i as int] == *list@[i as int]);
        ids.push(list[i].id);
    }
    assert(referred(list@).len() == list@.len());
    assert forall|id: i64| ids@.contains(id) <==> holds_fetch(*node, id) by {
        if ids@.contains(id) {
            assert(fetches(*node)[ids@.index_of(id)].id == id);
        }
        if holds_fetch(*node, id) {
            let k = choose|k: int|
                0 <= k < fetches(*node).len() && (#[trigger] fetches(*node)[k]).id == id;
            assert(ids@[k] == id);
        }
    }
    ids
}

/// The IDs that the fetches under a node depend on.
fn wanted_ids(node: &PlanNode) -> (ids: Vec<i64>)
    ensures
        forall|id: i64| ids@.contains(id) <==> needs_fetch(*node, id),
{
    let mut list: Vec<&FetchNode> = Vec::new();
    collect_fetches(node, &mut list);
    let ghost all = fetches(*node);
    assert(referred(list@) =~= all);
    assert(referred(list@).len() == list@.len());
    let mut ids: Vec<i64> = Vec::new();
    for i in 0..list.len()
        invariant
            referred(list@) == all,
            list@.len() == all.len(),
            forall|id: i64| #[trigger] ids@.contains(id) <==> needs_of_first(all, i as int, id),
    {
        assert(referred(list@)[i as int] == *list@[i as int]);
        let ghost before = ids@;
        let ghost fetch = all[i as int];
        if let Some(more) = &list[i].depends_on {
            let mut more_ids = more.clone();
            let ghost added = more_ids@;
            assert(added =~= more@);
            ids.append(&mut more_ids);
            assert(ids@ =~= before + added);
            assert forall|id: i64| #[trigger] ids@.contains(id) <==> needs_of_first(all, i + 1, id) by {
                lemma_contains_concat(before, added, id);
                assert(before.contains(id) <==> needs_of_first(all, i as int, id));
                lemma_needs_of_next(all, i as int, id);
            }
        } else {
            assert forall|id: i64| #[trigger] ids@.contains(id) <==> needs_of_first(all, i + 1, id) by {
                assert(before.contains(id) <==> needs_of_first(all, i as int, id));
                lemma_needs_of_next(all, i as int, id);
            }
        }
    }
    ids
}

/// Whether one of the first `n` of some fetches depends on the fetches with an ID.
spec fn needs_of_first(all: Seq<FetchNode>, n: int, id: i64) -> bool {
    exists|k: int|
        0 <= k < n && ((#[trigger] all[k]).depends_on matches Some(ids) && ids@.contains(id))
}

proof fn lemma_needs_of_next(all: Seq<FetchNode>, n: int, id: i64)
    requires
        0 <= n < all.len(),
    ensures
        needs_of_first(all, n + 1, id) <==> needs_of_first(all, n, id) || (
        all[n].depends_on is Some && all[n].depends_on->Some_0@.contains(id)),
{
    if needs_of_first(all, n, id) {
        let k = choose|k: int|
            0 <= k < n && ((#[trigger] all[k]).depends_on matches Some(ids) && ids@.contains(id));
        assert(all[k].depends_on is Some);
    }
    if all[n].depends_on is Some && all[n].depends_on->Some_0@.contains(id) {
        assert(all[n].depends_on is Some);
    }
}

proof fn lemma_contains_concat(a: Seq<i64>, b: Seq<i64>, id: i64)
    ensures
        (a + b).contains(id) <==> a.contains(id) || b.contains(id),
{
    let both = a + b;
    if a.contains(id) {
        assert(both[a.index_of(id)] == id);
    }
    if b.contains(id) {
        assert(both[a.len() + b.index_of(id)] == id);
    }
    if both.contains(id) {
        let k = both.index_of(id);
        if k < a.len() {
            assert(a[k] == id);
        } else {
            assert(b[k - a.len()] == id);
        }
    }
}

/// Whether an ID is in a list.
fn contains_id(ids: &Vec<DagNodeId>, id: DagNodeId) -> (found: bool)
    ensures
        found == ids@.contains(id),
{
    for k in 0..ids.len()
        invariant
            forall|j: int| 0 <= j < k ==> ids@[j] != id,
    {
        if ids[k] == id {
            assert(ids@[k as int] == id);
            return true;
        }
    }
    false
}

/// Whether two lists of fetch IDs have one in common.
fn share_id(a: &Vec<i64>, b: &Vec<i64>) -> (found: bool)
    ensures
        found == exists|id: i64| #[trigger] a@.contains(id) && b@.contains(id),
{
    for i in 0..a.len()
        invariant
            forall|k: int| 0 <= k < i ==> !b@.contains(#[trigger] a@[k]),
    {
        for j in 0..b.len()
            invariant
                i < a@.len(),
                forall|k: int| 0 <= k < j ==> b@[k] != a@[i as int],
        {
            if a[i] == b[j] {
                proof {
                    let id = a@[i as int];
                    assert(b@[j as int] == id);
                    assert(a@.contains(id) && b@.contains(id));
                }
                return true;
            }
        }
    }
    assert forall|id: i64| #[trigger] a@.contains(id) implies !b@.contains(id) by {
        assert(a@[a@.index_of(id)] == id);
    }
    false
}

} // verus!
