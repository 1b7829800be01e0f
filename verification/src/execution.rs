//! The run of a plan.
//!
//! [`Execution`] decides which node of a plan is prepared next. Whoever drives it prepares the job
//! of that node, starts it, and reports when a job came back. The jobs themselves are no part of
//! this module.

use vstd::prelude::*;
use std::collections::HashMap;

use crate::dag::DagScheduler;
use crate::order::{plan_waits, work, DagNodeId};
use crate::plan_nodes::PlanNode;
use crate::progress::{
    launched_is_consistent, returned_is_consistent, start_is_consistent, tagged,
    taken_is_consistent, without_work_is_consistent, Origin, Progress,
};

verus! {

/// What to do next in an execution.
#[derive(Debug, Clone, Copy, PartialEq, Eq, Structural)]
pub enum Step {
    /// Prepare the job of a node, and report it with [`Execution::prepared`].
    Prepare(DagNodeId),
    /// Wait for a running job, and report it with [`Execution::job_done`]. Where no job is running,
    /// the execution is over.
    Await,
}

/// The run of a plan.
pub struct Execution<'exec> {
    scheduler: DagScheduler<'exec>,
    /// Tracks which running jobs correspond to which node IDs
    future_to_node: HashMap<usize, DagNodeId>,
    future_id_counter: usize,
    /// Whether all nodes were given out that are ready without any job
    started: bool,
    /// Nodes that became ready since, the next one last
    newly_ready: Vec<(DagNodeId, Origin)>,
    /// The node that is being prepared
    current: Option<(DagNodeId, Origin)>,
    /// The nodes that were given out
    asked: Ghost<Set<int>>,
}

impl<'exec> View for Execution<'exec> {
    type V = Progress;

    closed spec fn view(&self) -> Progress {
        Progress {
            plan: self.scheduler.plan(),
            waits: self.scheduler.waits(),
            pending: tagged(self.scheduler.ready(), Origin::Start) + self.newly_ready@.reverse(),
            current: self.current,
            running: self.future_to_node@,
            asked: self.asked@,
            done: self.scheduler.done(),
        }
    }
}

impl<'exec> Execution<'exec> {
    /// Whether the parts of the execution fit together.
    pub closed spec fn wf(&self) -> bool {
        &&& self.scheduler.wf()
        &&& self@.consistent()
        &&& self.started ==> self.scheduler.ready().len() == 0
        &&& self.started ==> (self.current matches Some(current) ==> current.1 != Origin::Start)
        &&& forall|k: int|
            0 <= k < self.newly_ready@.len() ==> (#[trigger] self.newly_ready@[k]).1
                != Origin::Start
        &&& !self.started ==> self.newly_ready@.len() == 0
        &&& !self.started ==> (self.current matches Some(current) ==> current.1 == Origin::Start)
        // job IDs do not run out: there are no more of them than nodes
        &&& forall|job: usize| #[trigger]
            self.future_to_node@.contains_key(job) ==> job < self.future_id_counter
        &&& self.asked@.finite()
        &&& self.future_id_counter + (if self.current is Some {
            1int
        } else {
            0int
        }) <= self.asked@.len()
    }

    /// What is consistent of any execution, see [`Progress::consistent`].
    pub proof fn is_consistent(&self)
        requires
            self.wf(),
        ensures
            self@.consistent(),
    {
    }

    /// Starts the run of a plan.
    pub fn new(root: &'exec PlanNode) -> (execution: Self)
        ensures
            execution.wf(),
            execution@ == Progress::start(work(*root), plan_waits(*root)),
    {
        let scheduler = DagScheduler::compile(root);
        let execution = Execution {
            scheduler,
            future_to_node: HashMap::new(),
            future_id_counter: 0,
            started: false,
            newly_ready: Vec::new(),
            current: None,
            asked: Ghost(Set::empty()),
        };
        proof {
            scheduler.facts();
            start_is_consistent(work(*root), plan_waits(*root));
            assert(execution@ =~= Progress::start(work(*root), plan_waits(*root)));
        }
        execution
    }

    /// What to do next: the first node that is ready is given out; where none is, a job is waited
    /// for.
    pub fn next(&mut self) -> (step: Step)
        requires
            old(self).wf(),
            old(self)@.current is None,
        ensures
            final(self).wf(),
            if old(self)@.pending.len() > 0 {
                &&& step == Step::Prepare(old(self)@.pending[0].0)
                &&& final(self)@ == old(self)@.taken()
            } else {
                &&& step == Step::Await
                &&& final(self)@ == old(self)@
            },
    {
        let ghost before = self@;
        let ghost stack = self.newly_ready@;
        let next = if self.started {
            self.newly_ready.pop()
        } else {
            match self.scheduler.next_ready() {
                Some(id) => Some((id, Origin::Start)),
                None => None,
            }
        };
        match next {
            Some(current) => {
                self.current = Some(current);
                proof {
                    if self.started {
                        assert(before.pending =~= stack.reverse());
                        assert(stack.reverse()[0] == current);
                    } else {
                        assert(before.pending[0] == current);
                    }
                    taken_is_consistent(before);
                    self.asked@ = self.asked@.insert(current.0 as int);
                    assert(self@.pending =~= before.pending.skip(1));
                    assert(self@ =~= before.taken());
                }
                Step::Prepare(current.0)
            },
            None => {
                self.started = true;
                proof {
                    assert(self@.pending =~= before.pending);
                    assert(self@ =~= before);
                }
                Step::Await
            },
        }
    }

    /// Ends the preparation of a node: with `has_work` it gives the ID under which the job runs
    /// and comes back; without, the node is passed over.
    pub fn prepared(&mut self, has_work: bool) -> (job: Option<usize>)
        requires
            old(self).wf(),
            old(self)@.current is Some,
        ensures
            final(self).wf(),
            job is Some == has_work,
            match job {
                Some(job) => !old(self)@.running.contains_key(job) && final(self)@
                    == old(self)@.launched(job),
                None => final(self)@ == old(self)@.without_work(),
            },
    {
        let ghost before = self@;
        let (id, origin) = match self.current {
            Some(current) => current,
            None => {
                return None;
            },
        };
        assert(before.is_current(id as int));
        assert(before.asked.contains(id as int));
        if has_work {
            let job = self.future_id_counter;
            proof {
                self.scheduler.facts();
                lemma_within(self.asked@, self.scheduler.plan().len());
                launched_is_consistent(before, job);
            }
            self.future_id_counter = self.future_id_counter + 1;
            self.future_to_node.insert(job, id);
            self.current = None;
            assert(self@ =~= before.launched(job));
            return Some(job);
        }
        proof {
            without_work_is_consistent(before);
        }
        self.current = None;
        match origin {
            Origin::Start => {
                // Complete it immediately and check for newly ready nodes
                let newly_ready = self.scheduler.complete_node(id);
                let ghost ready = self.scheduler.ready();
                self.scheduler.extend_ready(newly_ready);
                assert(tagged(ready + newly_ready@, origin) =~= tagged(ready, origin) + tagged(
                    newly_ready@,
                    origin,
                ));
                assert(self@ =~= before.without_work());
            },
            Origin::Completed => {
                // Node had no work, complete it immediately
                let more_ready = self.scheduler.complete_node(id);
                self.add_newly_ready(more_ready, Origin::Completed);
                assert(self@ =~= before.without_work());
            },
        }
        None
    }

    /// A running job came back: what becomes ready by that is to be prepared. An ID that no running
    /// job has changes nothing.
    pub fn job_done(&mut self, job: usize)
        requires
            old(self).wf(),
            old(self)@.awaiting(),
        ensures
            final(self).wf(),
            final(self)@ == old(self)@.returned(job),
    {
        let ghost before = self@;
        proof {
            returned_is_consistent(before, job);
        }
        // Mark node as complete and get newly ready nodes
        if let Some(node_id) = self.future_to_node.remove(&job) {
            assert(before.is_running(node_id as int));
            assert(before.asked.contains(node_id as int));
            self.started = true;
            let newly_ready = self.scheduler.complete_node(node_id);
            self.add_newly_ready(newly_ready, Origin::Completed);
            assert(self@ =~= before.returned(job));
        } else {
            assert(self@ =~= before);
        }
    }

    /// The plan node that a node ID stands for.
    pub fn plan_node(&self, id: DagNodeId) -> (node: &'exec PlanNode)
        requires
            id < self@.plan.len(),
        ensures
            *node == self@.plan[id as int],
    {
        self.scheduler.plan_node(id)
    }

    /// Puts nodes before those that became ready earlier.
    fn add_newly_ready(&mut self, ids: Vec<DagNodeId>, origin: Origin)
        ensures
            final(self).scheduler == old(self).scheduler,
            final(self).future_to_node == old(self).future_to_node,
            final(self).future_id_counter == old(self).future_id_counter,
            final(self).started == old(self).started,
            final(self).current == old(self).current,
            final(self).asked == old(self).asked,
            final(self).newly_ready@ == old(self).newly_ready@ + tagged(ids@, origin).reverse(),
            final(self).newly_ready@.reverse() == tagged(ids@, origin)
                + old(self).newly_ready@.reverse(),
    {
        let ghost all = tagged(ids@, origin).reverse();
        let mut i = ids.len();
        while i > 0
            invariant
                i <= ids@.len(),
                all == tagged(ids@, origin).reverse(),
                self.scheduler == old(self).scheduler,
                self.future_to_node == old(self).future_to_node,
                self.future_id_counter == old(self).future_id_counter,
                self.started == old(self).started,
                self.current == old(self).current,
                self.asked == old(self).asked,
                self.newly_ready@ == old(self).newly_ready@ + all.take(ids@.len() - i),
            decreases i,
        {
            i -= 1;
            self.newly_ready.push((ids[i], origin));
            assert(self.newly_ready@ =~= old(self).newly_ready@ + all.take(ids@.len() - i));
        }
        assert(all.take(ids@.len() as int) =~= all);
        assert(self.newly_ready@.reverse() =~= tagged(ids@, origin)
            + old(self).newly_ready@.reverse());
    }
}

/// A set of positions below `n` has at most `n` of them.
proof fn lemma_within(s: Set<int>, n: nat)
    requires
        forall|i: int| #[trigger] s.contains(i) ==> 0 <= i < n,
    ensures
        s.len() <= n,
{
    let all = vstd::set_lib::set_int_range(0, n as int);
    vstd::set_lib::lemma_int_range(0, n as int);
    assert(s.subset_of(all));
    vstd::set_lib::lemma_len_subset(s, all);
}

} // verus!
