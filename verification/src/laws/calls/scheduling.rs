//! Calls that schedule a plan.

use vstd::prelude::*;

use crate::dag::DagScheduler;
use crate::execution::{Execution, Step};
use crate::laws::scheduling::{
    a_node_waits_for_every_reason, a_node_waits_only_for_a_reason, names,
    what_waits_for_nothing_else_becomes_ready, what_waits_for_nothing_is_ready,
    without_names_the_tree_decides,
};
use crate::order::{freed, plan_waits, plan_waits_stay_inside, waits, work, DagNodeId};
use crate::plan_nodes::PlanNode;
use crate::progress::Origin;

verus! {

/// A compiled plan waits exactly as its tree and its fetches say: a node waits for another one by
/// its place in the tree or because one of its fetches lists a fetch under that node, and for
/// nothing else. Where no fetch lists another one, the tree alone decides.
pub proof fn compiled_plans_wait_as_they_say<'a>(
    root: &'a PlanNode,
    scheduler: DagScheduler<'a>,
    j: int,
    i: int,
)
    requires
        call_ensures(DagScheduler::compile, (root,), scheduler),
        0 <= j < work(*root).len(),
    ensures
        scheduler.plan() == work(*root),
        scheduler.waits().len() == work(*root).len(),
        scheduler.waits()[j].contains(i) <==> waits(*root, 0, Set::empty())[j].contains(i) || (0 <= i
            < work(*root).len() && i != j && names(work(*root)[j], work(*root)[i])),
        (forall|b: int, a: int|
            0 <= b < work(*root).len() && 0 <= a < work(*root).len() && a != b ==> !(
            #[trigger] names(work(*root)[b], work(*root)[a]))) ==> scheduler.waits() == waits(
            *root,
            0,
            Set::empty(),
        ),
{
    plan_waits_stay_inside(*root);
    if plan_waits(*root)[j].contains(i) {
        a_node_waits_only_for_a_reason(*root, j, i);
    } else if waits(*root, 0, Set::empty())[j].contains(i) || (0 <= i < work(*root).len() && i != j
        && names(work(*root)[j], work(*root)[i])) {
        a_node_waits_for_every_reason(*root, j, i);
    }
    if forall|b: int, a: int|
        0 <= b < work(*root).len() && 0 <= a < work(*root).len() && a != b ==> !(#[trigger] names(
            work(*root)[b],
            work(*root)[a],
        )) {
        without_names_the_tree_decides(*root);
    }
}

/// At first exactly the nodes of a compiled plan are ready that wait for nothing, and none is
/// completed.
pub proof fn compiled_plans_start_with_what_is_ready<'a>(
    root: &'a PlanNode,
    scheduler: DagScheduler<'a>,
    d: DagNodeId,
)
    requires
        call_ensures(DagScheduler::compile, (root,), scheduler),
        work(*root).len() <= usize::MAX,
    ensures
        scheduler.ready().contains(d) <==> d < work(*root).len() && forall|w: int|
            !scheduler.waits()[d as int].contains(w),
        forall|a: int, b: int|
            0 <= a < b < scheduler.ready().len() ==> scheduler.ready()[a] < scheduler.ready()[b],
        !scheduler.done().contains(d as int),
{
    plan_waits_stay_inside(*root);
    what_waits_for_nothing_is_ready(plan_waits(*root));
}

/// Completing a node, whichever it is, makes exactly those nodes ready that wait for it and whose
/// other waits are over. An ID that no node has changes nothing.
pub proof fn completing_a_node_frees_what_waits_for_nothing_else<'a>(
    dag: &mut DagScheduler<'a>,
    node_id: DagNodeId,
    newly_ready: Vec<DagNodeId>,
    d: DagNodeId,
)
    requires
        call_ensures(DagScheduler::complete_node, (dag, node_id), newly_ready),
        old(dag).waits().len() <= usize::MAX,
    ensures
        final(dag).plan() == old(dag).plan(),
        final(dag).waits() == old(dag).waits(),
        final(dag).ready() == old(dag).ready(),
        node_id < old(dag).plan().len() ==> {
            &&& newly_ready@.contains(d) <==> d < old(dag).waits().len() && (old(dag).waits()[
            d as int]).contains(node_id as int) && forall|w: int|
                old(dag).waits()[d as int].contains(w) && w != node_id
                    ==> old(dag).done().contains(w)
            &&& forall|a: int, b: int|
                0 <= a < b < newly_ready@.len() ==> newly_ready@[a] < newly_ready@[b]
            &&& final(dag).done().contains(d as int) <==> old(dag).done().contains(
                d as int,
            ) || d == node_id
        },
        node_id >= old(dag).plan().len() ==> newly_ready@.len() == 0 && final(dag).done()
            == old(dag).done(),
{
    what_waits_for_nothing_else_becomes_ready(
        dag.waits(),
        dag.done(),
        node_id as int,
    );
}

/// The ready queue gives its nodes out from the front and takes others at its end.
pub proof fn the_ready_queue_keeps_its_order<'a>(
    dag: &mut DagScheduler<'a>,
    ids: Vec<DagNodeId>,
)
    requires
        call_ensures(DagScheduler::extend_ready, (dag, ids), ()),
    ensures
        final(dag).ready().len() == old(dag).ready().len() + ids@.len(),
        forall|k: int|
            0 <= k < old(dag).ready().len() ==> final(dag).ready()[k]
                == #[trigger] old(dag).ready()[k],
        forall|k: int|
            0 <= k < ids@.len() ==> final(dag).ready()[old(dag).ready().len() + k]
                == #[trigger] ids@[k],
        final(dag).waits() == old(dag).waits(),
        final(dag).done() == old(dag).done(),
{
}

/// What is next in the ready queue leaves it, and nothing else does.
pub proof fn the_ready_queue_gives_its_first_node<'a>(
    dag: &mut DagScheduler<'a>,
    next: Option<DagNodeId>,
)
    requires
        call_ensures(DagScheduler::next_ready, (dag,), next),
    ensures
        next is Some <==> old(dag).ready().len() > 0,
        next is Some ==> next->Some_0 == old(dag).ready()[0],
        next is Some ==> final(dag).ready() == old(dag).ready().skip(1),
        next is None ==> final(dag).ready() == old(dag).ready(),
        final(dag).waits() == old(dag).waits(),
        final(dag).done() == old(dag).done(),
{
    if next is Some {
        assert(old(dag).ready().skip(1) =~= final(dag).ready());
    }
}

/// A run starts with the nodes of the plan that wait for nothing to be prepared, and with no job.
pub proof fn runs_start_with_what_is_ready<'a>(
    root: &'a PlanNode,
    execution: Execution<'a>,
    scheduler: DagScheduler<'a>,
    d: DagNodeId,
)
    requires
        call_ensures(Execution::new, (root,), execution),
        call_ensures(DagScheduler::compile, (root,), scheduler),
    ensures
        execution@.plan == scheduler.plan(),
        execution@.waits == scheduler.waits(),
        execution@.pending.len() == scheduler.ready().len(),
        forall|k: int|
            0 <= k < scheduler.ready().len() ==> execution@.pending[k] == (
                #[trigger] scheduler.ready()[k],
                Origin::Start,
            ),
        execution@.current is None,
        !execution@.running.contains_key(d),
        !execution@.asked.contains(d as int),
        !execution@.done.contains(d as int),
{
}

/// The first node that is to be prepared is given out; where there is none, a job is to be waited
/// for.
pub proof fn runs_give_out_their_first_node<'a>(run: &mut Execution<'a>, step: Step)
    requires
        call_ensures(Execution::next, (run,), step),
    ensures
        step == Step::Await <==> old(run)@.pending.len() == 0,
        old(run)@.pending.len() == 0 ==> final(run)@ == old(run)@,
        old(run)@.pending.len() > 0 ==> {
            &&& step == Step::Prepare(old(run)@.pending[0].0)
            &&& final(run)@.current == Some(old(run)@.pending[0])
            &&& final(run)@.pending == old(run)@.pending.skip(1)
            &&& final(run)@.asked == old(run)@.asked.insert(old(run)@.pending[0].0 as int)
            &&& final(run)@.running == old(run)@.running
            &&& final(run)@.done == old(run)@.done
            &&& final(run)@.waits == old(run)@.waits
            &&& final(run)@.plan == old(run)@.plan
        },
{
}

/// A node with work gets a job that no other node has, and waits for it. A node without work is
/// completed, and what waits for nothing else is to be prepared: behind all other nodes as long as
/// no job was waited for, later before them.
pub proof fn runs_start_a_job_or_go_on<'a>(
    run: &mut Execution<'a>,
    has_work: bool,
    job: Option<usize>,
)
    requires
        call_ensures(Execution::prepared, (run, has_work), job),
        old(run)@.current is Some,
    ensures
        job is Some <==> has_work,
        final(run)@.current is None,
        final(run)@.asked == old(run)@.asked,
        final(run)@.waits == old(run)@.waits,
        final(run)@.plan == old(run)@.plan,
        job matches Some(job) ==> {
            &&& !old(run)@.running.contains_key(job)
            &&& final(run)@.running == old(run)@.running.insert(job, old(run)@.current->Some_0.0)
            &&& final(run)@.pending == old(run)@.pending
            &&& final(run)@.done == old(run)@.done
        },
        job is None ==> ({
            let (id, origin) = old(run)@.current->Some_0;
            let new = freed(old(run)@.waits, old(run)@.done, id as int);
            let listed = new.map_values(|id: DagNodeId| (id, origin));
            &&& final(run)@.running == old(run)@.running
            &&& final(run)@.done == old(run)@.done.insert(id as int)
            &&& origin == Origin::Start ==> final(run)@.pending == old(run)@.pending + listed
            &&& origin == Origin::Completed ==> final(run)@.pending == listed + old(run)@.pending
        }),
{
    if job is None {
        let (id, origin) = old(run)@.current->Some_0;
        let new = freed(old(run)@.waits, old(run)@.done, id as int);
        let listed = new.map_values(|id: DagNodeId| (id, origin));
        assert(origin == Origin::Start ==> final(run)@.pending =~= old(run)@.pending + listed);
        assert(origin == Origin::Completed ==> final(run)@.pending =~= listed + old(run)@.pending);
    }
}

/// When a job comes back, its node is completed, and what waits for nothing else is to be prepared
/// before all other nodes. A job that does not run changes nothing.
pub proof fn runs_go_on_when_a_job_comes_back<'a>(run: &mut Execution<'a>, job: usize)
    requires
        call_ensures(Execution::job_done, (run, job), ()),
    ensures
        !old(run)@.running.contains_key(job) ==> final(run)@ == old(run)@,
        old(run)@.running.contains_key(job) ==> ({
            let id = old(run)@.running[job];
            let new = freed(old(run)@.waits, old(run)@.done, id as int);
            let listed = new.map_values(|id: DagNodeId| (id, Origin::Completed));
            &&& final(run)@.running == old(run)@.running.remove(job)
            &&& final(run)@.done == old(run)@.done.insert(id as int)
            &&& final(run)@.pending == listed + old(run)@.pending
            &&& final(run)@.current == old(run)@.current
            &&& final(run)@.asked == old(run)@.asked
            &&& final(run)@.waits == old(run)@.waits
            &&& final(run)@.plan == old(run)@.plan
        }),
{
    if old(run)@.running.contains_key(job) {
        let id = old(run)@.running[job];
        let new = freed(old(run)@.waits, old(run)@.done, id as int);
        let listed = new.map_values(|id: DagNodeId| (id, Origin::Completed));
        assert(final(run)@.pending =~= listed + old(run)@.pending);
    }
}

/// A node of a run is that of its plan.
pub proof fn runs_know_their_nodes<'a>(
    run: &Execution<'a>,
    dag: &DagScheduler<'a>,
    id: DagNodeId,
    of_run: &'a PlanNode,
    of_dag: &'a PlanNode,
)
    requires
        call_ensures(Execution::plan_node, (run, id), of_run),
        call_ensures(DagScheduler::plan_node, (dag, id), of_dag),
    ensures
        *of_run == run@.plan[id as int],
        *of_dag == dag.plan()[id as int],
{
}

} // verus!
