//! How far the run of a plan is, as mathematics.
//!
//! A [`Progress`] says what became of each work node of a plan. It changes in three ways: a node is
//! given out to be prepared, the preparation ends with a job or without one, and a job comes back.

use vstd::prelude::*;

use crate::order::{
    acyclic, ascending_is_exact, covers, depends, explicit, free, free_set, freed, freed_set,
    holds_fetch, inside, needs_fetch, plan_waits, ranked, reaches, runs_after,
    runs_after_transitive, sequence_runs_in_order, waiting_is_running_after, waits_in_sequence,
    work, work_of_first, DagNodeId,
};
use crate::plan_nodes::PlanNode;

verus! {

/// What made a node ready.
#[derive(Debug, Clone, Copy, PartialEq, Eq, Structural)]
pub enum Origin {
    /// It waits for nothing, or for nodes without work only, and no job was waited for yet.
    Start,
    /// A job came back that it waits for, or that made ready the nodes without work that it waits
    /// for.
    Completed,
}

/// How far the run of a plan is.
#[verifier::ext_equal]
pub struct Progress {
    /// The work nodes of the plan.
    pub plan: Seq<PlanNode>,
    /// What each work node waits for.
    pub waits: Seq<Set<int>>,
    /// The nodes that are to be prepared, in their order.
    pub pending: Seq<(DagNodeId, Origin)>,
    /// The node that is being prepared.
    pub current: Option<(DagNodeId, Origin)>,
    /// The running jobs, each with its node.
    pub running: Map<usize, DagNodeId>,
    /// The nodes that were given out to be prepared.
    pub asked: Set<int>,
    /// The completed nodes.
    pub done: Set<int>,
}

/// Nodes with what made them ready.
pub open spec fn tagged(ids: Seq<DagNodeId>, origin: Origin) -> Seq<(DagNodeId, Origin)> {
    ids.map_values(|id: DagNodeId| (id, origin))
}

/// Whether a node is among some that are ready.
pub open spec fn is_among(nodes: Seq<(DagNodeId, Origin)>, i: int) -> bool {
    exists|k: int| 0 <= k < nodes.len() && (#[trigger] nodes[k]).0 == i
}

/// Whether one of the running jobs is that of a node.
pub open spec fn has_job(running: Map<usize, DagNodeId>, i: int) -> bool {
    exists|job: usize| #[trigger] running.contains_key(job) && running[job] == i
}

impl Progress {
    /// The start of a run: the nodes that wait for nothing are to be prepared.
    pub open spec fn start(plan: Seq<PlanNode>, waits: Seq<Set<int>>) -> Progress {
        Progress {
            plan,
            waits,
            pending: tagged(free(waits), Origin::Start),
            current: None,
            running: Map::empty(),
            asked: Set::empty(),
            done: Set::empty(),
        }
    }

    /// The first node that is to be prepared is given out.
    pub open spec fn taken(self) -> Progress {
        Progress {
            pending: self.pending.skip(1),
            current: Some(self.pending[0]),
            asked: self.asked.insert(self.pending[0].0 as int),
            ..self
        }
    }

    /// The node that is being prepared has work, which runs as `job`.
    pub open spec fn launched(self, job: usize) -> Progress {
        Progress {
            current: None,
            running: self.running.insert(job, self.current->Some_0.0),
            ..self
        }
    }

    /// The nodes that become ready when a node completes.
    pub open spec fn freed(self, id: DagNodeId) -> Seq<DagNodeId> {
        freed(self.waits, self.done, id as int)
    }

    /// The node that is being prepared has no work. It is completed, and what becomes ready by that
    /// is to be prepared: at the start behind all other nodes, later before them.
    pub open spec fn without_work(self) -> Progress {
        let (id, origin) = self.current->Some_0;
        Progress {
            current: None,
            done: self.done.insert(id as int),
            pending: match origin {
                Origin::Start => self.pending + tagged(self.freed(id), Origin::Start),
                Origin::Completed => tagged(self.freed(id), Origin::Completed) + self.pending,
            },
            ..self
        }
    }

    /// A job came back: its node is completed, and what becomes ready by that is to be prepared. A
    /// job that is not running changes nothing.
    pub open spec fn returned(self, job: usize) -> Progress {
        if self.running.contains_key(job) {
            let id = self.running[job];
            Progress {
                running: self.running.remove(job),
                done: self.done.insert(id as int),
                pending: tagged(self.freed(id), Origin::Completed) + self.pending,
                ..self
            }
        } else {
            self
        }
    }

    /// Whether there is nothing to do but to wait for a job.
    pub open spec fn awaiting(self) -> bool {
        self.current is None && self.pending.len() == 0
    }

    /// Whether a node is among those to be prepared.
    pub open spec fn is_pending(self, i: int) -> bool {
        is_among(self.pending, i)
    }

    /// Whether a node is being prepared.
    pub open spec fn is_current(self, i: int) -> bool {
        self.current matches Some(current) && current.0 == i
    }

    /// Whether the job of a node is running.
    pub open spec fn is_running(self, i: int) -> bool {
        has_job(self.running, i)
    }

    /// Whether a node waits for nothing that is not completed.
    pub open spec fn is_due(self, i: int) -> bool {
        self.waits[i].subset_of(self.done)
    }

    /// What holds throughout a run. Exactly the nodes that are due were given out or are to be;
    /// those that were given out are being prepared, running or completed, each of them just one of
    /// these; and no node that waits for itself, by some steps, was given out.
    pub open spec fn consistent(self) -> bool {
        &&& self.waits.len() == self.plan.len()
        &&& self.plan.len() <= usize::MAX
        &&& inside(self.waits)
        &&& forall|i: int|
            0 <= i < self.plan.len() ==> (#[trigger] self.is_due(i) <==> self.asked.contains(i)
                || self.is_pending(i))
        &&& forall|k: int|
            0 <= k < self.pending.len() ==> (#[trigger] self.pending[k]).0 < self.plan.len()
                && !self.asked.contains(self.pending[k].0 as int)
        &&& forall|j: int, k: int|
            0 <= j < k < self.pending.len() ==> (#[trigger] self.pending[j]).0 != (
            #[trigger] self.pending[k]).0
        &&& forall|i: int| #[trigger]
            self.asked.contains(i) <==> self.is_current(i) || self.is_running(i)
                || self.done.contains(i)
        &&& forall|i: int| #[trigger] self.asked.contains(i) ==> 0 <= i < self.plan.len()
        &&& forall|i: int| #[trigger]
            self.is_current(i) ==> !self.is_running(i) && !self.done.contains(i)
        &&& forall|i: int| #[trigger] self.is_running(i) ==> !self.done.contains(i)
        &&& forall|a: usize, b: usize|
            #![trigger self.running.contains_key(a), self.running.contains_key(b)]
            self.running.contains_key(a) && self.running.contains_key(b) && a != b
                ==> self.running[a] != self.running[b]
        &&& forall|i: int| #[trigger]
            self.asked.contains(i) ==> !runs_after(self.waits, i, i)
    }
}

/// A run starts consistent.
pub proof fn start_is_consistent(plan: Seq<PlanNode>, waits: Seq<Set<int>>)
    requires
        waits.len() == plan.len(),
        plan.len() <= usize::MAX,
        inside(waits),
    ensures
        Progress::start(plan, waits).consistent(),
{
    let p = Progress::start(plan, waits);
    let first = free(waits);
    ascending_is_exact(free_set(waits), waits.len() as int);
    assert forall|i: int| 0 <= i < plan.len() implies (#[trigger] p.is_due(i) <==> p.asked.contains(
        i,
    ) || p.is_pending(i)) by {
        if p.is_due(i) {
            assert(waits[i] =~= Set::empty());
            assert(free_set(waits).contains(i));
            assert(first.contains(i as usize));
            assert(p.pending[first.index_of(i as usize)].0 == i);
        }
        if p.is_pending(i) {
            let k = choose|k: int| 0 <= k < p.pending.len() && (#[trigger] p.pending[k]).0 == i;
            assert(free_set(waits).contains(first[k] as int));
        }
    }
}

/// Giving out a node keeps a run consistent, and no node is given out twice.
pub proof fn taken_is_consistent(p: Progress)
    requires
        p.consistent(),
        p.current is None,
        p.pending.len() > 0,
    ensures
        p.taken().consistent(),
        !p.asked.contains(p.pending[0].0 as int),
{
    let q = p.taken();
    let id = p.pending[0].0 as int;
    assert forall|i: int| 0 <= i < q.plan.len() implies (#[trigger] q.is_due(i) <==> q.asked.contains(
        i,
    ) || q.is_pending(i)) by {
        assert(p.is_due(i) == q.is_due(i));
        if p.is_pending(i) {
            let k = choose|k: int| 0 <= k < p.pending.len() && (#[trigger] p.pending[k]).0 == i;
            if k > 0 {
                assert(q.pending[k - 1].0 == i);
            }
        }
        if q.is_pending(i) {
            let k = choose|k: int| 0 <= k < q.pending.len() && (#[trigger] q.pending[k]).0 == i;
            assert(p.pending[k + 1].0 == i);
        }
        assert(p.is_pending(id));
    }
    assert forall|k: int| 0 <= k < q.pending.len() implies (#[trigger] q.pending[k]).0
        < q.plan.len() && !q.asked.contains(q.pending[k].0 as int) by {
        assert(q.pending[k] == p.pending[k + 1]);
        assert(p.pending[0].0 != p.pending[k + 1].0);
    }
    assert forall|j: int, k: int| 0 <= j < k < q.pending.len() implies (#[trigger] q.pending[j]).0
        != (#[trigger] q.pending[k]).0 by {
        assert(p.pending[j + 1].0 != p.pending[k + 1].0);
    }
    assert forall|i: int| #[trigger] q.is_running(i) == p.is_running(i) by {}
    assert(!p.asked.contains(id));
    assert(!p.is_running(id));
    assert(p.is_pending(id));
    assert(p.is_due(id));
    assert(!runs_after(q.waits, id, id)) by {
        if runs_after(p.waits, id, id) {
            let n = choose|n: nat| reaches(p.waits, n, id, id);
            lemma_reached_from_due(p, n, id, id);
        }
    }
}

/// What a due node waits for, by some steps, is completed.
proof fn lemma_reached_from_due(p: Progress, n: nat, a: int, b: int)
    requires
        p.consistent(),
        p.is_due(a),
        reaches(p.waits, n, a, b),
    ensures
        p.done.contains(b),
    decreases n,
{
    let c = choose|c: int| #[trigger]
        p.waits[a].contains(c) && (c == b || reaches(p.waits, (n - 1) as nat, c, b));
    assert(p.done.contains(c));
    if c != b {
        assert(p.asked.contains(c));
        assert(p.is_due(c));
        lemma_reached_from_due(p, (n - 1) as nat, c, b);
    }
}

/// Starting the job of the node that is being prepared keeps a run consistent.
pub proof fn launched_is_consistent(p: Progress, job: usize)
    requires
        p.consistent(),
        p.current is Some,
        !p.running.contains_key(job),
    ensures
        p.launched(job).consistent(),
{
    let q = p.launched(job);
    let id = p.current->Some_0.0 as int;
    assert(p.is_current(id));
    assert forall|i: int| #[trigger] q.is_running(i) <==> p.is_running(i) || i == id by {
        if p.is_running(i) {
            let other = choose|other: usize| #[trigger]
                p.running.contains_key(other) && p.running[other] == i;
            assert(q.running.contains_key(other) && q.running[other] == i);
        }
        assert(q.running.contains_key(job) && q.running[job] == id);
        if q.is_running(i) && i != id {
            let other = choose|other: usize| #[trigger]
                q.running.contains_key(other) && q.running[other] == i;
            assert(p.running.contains_key(other) && p.running[other] == i);
        }
    }
    assert forall|i: int| #[trigger] q.is_pending(i) == p.is_pending(i) by {}
    assert forall|i: int| #[trigger] q.is_due(i) == p.is_due(i) by {}
    assert(!p.is_running(id));
    assert forall|a: usize, b: usize|
        #![trigger q.running.contains_key(a), q.running.contains_key(b)]
        q.running.contains_key(a) && q.running.contains_key(b) && a != b implies q.running[a]
        != q.running[b] by {
        if a == job {
            assert(p.running.contains_key(b));
        } else if b == job {
            assert(p.running.contains_key(a));
        } else {
            assert(p.running.contains_key(a) && p.running.contains_key(b));
        }
    }
}

/// Completing a node makes ready what waits for it, and nothing that was ready before.
proof fn lemma_completed(p: Progress, q: Progress, id: DagNodeId, origin: Origin, first: bool)
    requires
        p.consistent(),
        p.is_current(id as int) || p.is_running(id as int),
        q.plan == p.plan,
        q.waits == p.waits,
        q.asked == p.asked,
        q.done == p.done.insert(id as int),
        q.pending == (if first {
            tagged(p.freed(id), origin) + p.pending
        } else {
            p.pending + tagged(p.freed(id), origin)
        }),
        forall|i: int| #[trigger]
            q.is_current(i) || q.is_running(i) <==> (p.is_current(i) || p.is_running(i)) && i != id,
        forall|i: int| #[trigger] q.is_current(i) ==> p.is_current(i) && !q.is_running(i),
        forall|i: int| #[trigger] q.is_running(i) ==> p.is_running(i) && i != id,
        forall|a: usize, b: usize|
            #![trigger q.running.contains_key(a), q.running.contains_key(b)]
            q.running.contains_key(a) && q.running.contains_key(b) && a != b ==> q.running[a]
                != q.running[b],
    ensures
        q.consistent(),
{
    let waiting = p.freed(id);
    let new = tagged(waiting, origin);
    let ready = freed_set(p.waits, p.done, id as int);
    ascending_is_exact(ready, p.waits.len() as int);
    assert(p.asked.contains(id as int));
    assert(!p.done.contains(id as int));
    assert forall|k: int| 0 <= k < new.len() implies (#[trigger] new[k]).0 < p.plan.len()
        && !p.asked.contains(new[k].0 as int) && !p.is_pending(new[k].0 as int) by {
        let i = waiting[k] as int;
        assert(ready.contains(i));
        assert(p.waits[i].contains(id as int));
        assert(!p.is_due(i));
    }
    assert forall|k: int| 0 <= k < q.pending.len() implies (#[trigger] q.pending[k]).0
        < q.plan.len() && !q.asked.contains(q.pending[k].0 as int) by {
        if first {
            if k < new.len() {
                assert(q.pending[k] == new[k]);
            } else {
                assert(q.pending[k] == p.pending[k - new.len()]);
            }
        } else {
            if k < p.pending.len() {
                assert(q.pending[k] == p.pending[k]);
            } else {
                assert(q.pending[k] == new[k - p.pending.len()]);
            }
        }
    }
    assert forall|j: int, k: int| 0 <= j < k < q.pending.len() implies (#[trigger] q.pending[j]).0
        != (#[trigger] q.pending[k]).0 by {
        let m = if first {
            new.len() as int
        } else {
            p.pending.len() as int
        };
        if k < m {
            if first {
                assert(q.pending[j] == new[j] && q.pending[k] == new[k]);
                assert(waiting[j] < waiting[k]);
            } else {
                assert(p.pending[j].0 != p.pending[k].0);
            }
        } else if j >= m {
            if first {
                assert(p.pending[j - m].0 != p.pending[k - m].0);
            } else {
                assert(q.pending[j] == new[j - m] && q.pending[k] == new[k - m]);
                assert(waiting[j - m] < waiting[k - m]);
            }
        } else if first {
            assert(q.pending[j] == new[j] && q.pending[k] == p.pending[k - m]);
            assert(!p.is_pending(new[j].0 as int));
        } else {
            assert(q.pending[j] == p.pending[j] && q.pending[k] == new[k - m]);
            assert(!p.is_pending(new[k - m].0 as int));
        }
    }
    assert forall|i: int| 0 <= i < q.plan.len() implies (#[trigger] q.is_due(i) <==> q.asked.contains(
        i,
    ) || q.is_pending(i)) by {
        let shift = if first {
            new.len() as int
        } else {
            0
        };
        let at = if first {
            0
        } else {
            p.pending.len() as int
        };
        assert(q.is_due(i) <==> p.is_due(i) || ready.contains(i)) by {
            if q.is_due(i) && !p.waits[i].contains(id as int) {
                assert(p.waits[i].subset_of(p.done));
            }
        }
        if p.is_pending(i) {
            let k = choose|k: int| 0 <= k < p.pending.len() && (#[trigger] p.pending[k]).0 == i;
            assert(q.pending[k + shift] == p.pending[k]);
        }
        if ready.contains(i) {
            assert(waiting.contains(i as usize));
            let k = waiting.index_of(i as usize);
            assert(new[k].0 == i);
            assert(q.pending[k + at] == new[k]);
        }
        if q.is_pending(i) {
            let k = choose|k: int| 0 <= k < q.pending.len() && (#[trigger] q.pending[k]).0 == i;
            if shift <= k < shift + p.pending.len() {
                assert(q.pending[k] == p.pending[k - shift]);
                assert(p.is_pending(i));
            } else {
                assert(q.pending[k] == new[k - at]);
                assert(ready.contains(waiting[k - at] as int));
            }
        }
    }
    assert forall|i: int| #[trigger] q.asked.contains(i) <==> q.is_current(i) || q.is_running(i)
        || q.done.contains(i) by {
        assert(p.asked.contains(i) <==> p.is_current(i) || p.is_running(i) || p.done.contains(i));
        assert(q.is_current(i) || q.is_running(i) <==> (p.is_current(i) || p.is_running(i)) && i
            != id);
    }
    assert forall|i: int| #[trigger] q.is_current(i) implies !q.is_running(i) && !q.done.contains(
        i,
    ) by {
        assert(p.is_current(i));
        assert(q.is_current(i) || q.is_running(i) <==> (p.is_current(i) || p.is_running(i)) && i
            != id);
    }
    assert forall|i: int| #[trigger] q.is_running(i) implies !q.done.contains(i) by {
        assert(p.is_running(i));
    }
}

/// Ending a preparation without a job keeps a run consistent.
pub proof fn without_work_is_consistent(p: Progress)
    requires
        p.consistent(),
        p.current is Some,
    ensures
        p.without_work().consistent(),
{
    let q = p.without_work();
    let (id, origin) = p.current->Some_0;
    assert(p.is_current(id as int));
    assert forall|i: int| #[trigger] q.is_running(i) == p.is_running(i) by {}
    assert forall|i: int| #[trigger] q.is_current(i) || q.is_running(i) <==> (p.is_current(i)
        || p.is_running(i)) && i != id by {
        assert(q.is_running(i) == p.is_running(i));
    }
    lemma_completed(p, q, id, origin, origin != Origin::Start);
}

/// The return of a job keeps a run consistent.
pub proof fn returned_is_consistent(p: Progress, job: usize)
    requires
        p.consistent(),
    ensures
        p.returned(job).consistent(),
{
    if p.running.contains_key(job) {
        let q = p.returned(job);
        let id = p.running[job];
        assert(p.is_running(id as int));
        assert forall|i: int| #[trigger] q.is_running(i) <==> p.is_running(i) && i != id by {
            if p.is_running(i) && i != id {
                let other = choose|other: usize| #[trigger]
                    p.running.contains_key(other) && p.running[other] == i;
                assert(q.running.contains_key(other) && q.running[other] == i);
            }
            if q.is_running(i) {
                let other = choose|other: usize| #[trigger]
                    q.running.contains_key(other) && q.running[other] == i;
                assert(p.running.contains_key(other) && p.running[other] == i);
                assert(p.running.contains_key(job));
            }
        }
        assert forall|i: int| #[trigger] q.is_current(i) || q.is_running(i) <==> (p.is_current(i)
            || p.is_running(i)) && i != id by {
            assert(q.is_running(i) <==> p.is_running(i) && i != id);
            assert(q.is_current(i) == p.is_current(i));
        }
        assert forall|i: int| #[trigger] q.is_current(i) implies p.is_current(i)
            && !q.is_running(i) by {
            assert(p.is_current(i));
            assert(q.is_running(i) <==> p.is_running(i) && i != id);
        }
        assert forall|a: usize, b: usize|
            #![trigger q.running.contains_key(a), q.running.contains_key(b)]
            q.running.contains_key(a) && q.running.contains_key(b) && a != b implies q.running[a]
            != q.running[b] by {
            assert(p.running.contains_key(a) && p.running.contains_key(b));
        }
        lemma_completed(p, q, id, Origin::Completed, true);
    }
}

/// A node is given out only when what it waits for is completed, and so is what that waits for: the
/// order of the plan is kept.
pub proof fn order_is_kept(p: Progress, a: int, b: int)
    requires
        p.consistent(),
        p.asked.contains(a),
        runs_after(p.waits, a, b),
    ensures
        p.done.contains(b),
{
    let n = choose|n: nat| reaches(p.waits, n, a, b);
    assert(p.is_due(a));
    lemma_reached_from_due(p, n, a, b);
}

/// A sequence runs in order: a work node `x` of a later node of the sequence is given out only when
/// every work node `y` of the earlier node `i` is completed. The sequence stands anywhere in the
/// plan, where its first work node has position `base` and `before` stands before it, see
/// [`covers`].
pub proof fn sequence_order_is_kept(
    p: Progress,
    nodes: Seq<PlanNode>,
    base: int,
    before: Set<int>,
    i: int,
    x: int,
    y: int,
)
    requires
        p.consistent(),
        covers(p.waits, waits_in_sequence(nodes, nodes.len() as int, base, before), base),
        0 <= i < nodes.len(),
        base + work_of_first(nodes, i).len() <= y < base + work_of_first(nodes, i + 1).len(),
        base + work_of_first(nodes, i + 1).len() <= x < base + work_of_first(
            nodes,
            nodes.len() as int,
        ).len(),
        p.asked.contains(x),
    ensures
        p.done.contains(y),
{
    sequence_runs_in_order(nodes, nodes.len() as int, base, before, p.waits, i, x, y);
    order_is_kept(p, x, y);
}

/// Explicit dependencies are kept: a work node `j` with a fetch that depends on the fetches with an
/// ID is given out only when every other work node `i` with such a fetch is completed.
pub proof fn explicit_order_is_kept(p: Progress, root: PlanNode, j: int, i: int, id: i64)
    requires
        p.consistent(),
        p.plan == work(root),
        p.waits == plan_waits(root),
        0 <= i < p.plan.len(),
        i != j,
        needs_fetch(p.plan[j], id),
        holds_fetch(p.plan[i], id),
        p.asked.contains(j),
    ensures
        p.done.contains(i),
{
    assert(depends(p.plan, j, i));
    assert(explicit(p.plan, j).contains(i));
    assert(p.waits[j].contains(i));
    assert(p.is_due(j));
}

/// Nodes that wait for each other in a circle are never given out.
pub proof fn circles_are_never_given_out(p: Progress, x: int)
    requires
        p.consistent(),
        runs_after(p.waits, x, x),
    ensures
        !p.asked.contains(x),
{
}

/// Whatever can run is running: before a job is waited for, every node is given out that waits for
/// nothing, or for completed nodes only.
pub proof fn all_due_are_given_out(p: Progress, x: int)
    requires
        p.consistent(),
        p.awaiting(),
        0 <= x < p.plan.len(),
        p.is_due(x),
    ensures
        p.asked.contains(x),
{
    assert(p.is_due(x));
}

impl Progress {
    /// Whether node `x` is held up by node `y`: `y` is running, and `x` is that node or waits for
    /// it.
    pub open spec fn is_held_up(self, x: int, y: int) -> bool {
        &&& self.is_running(y)
        &&& x == y || runs_after(self.waits, x, y)
    }
}

/// No node is forgotten: while a job is waited for, every node that is not completed is held up by
/// a running node, where no nodes wait for each other in a circle.
pub proof fn no_node_is_forgotten(p: Progress, x: int)
    requires
        p.consistent(),
        p.awaiting(),
        acyclic(p.waits),
        0 <= x < p.plan.len(),
    ensures
        p.done.contains(x) || exists|y: int| p.is_held_up(x, y),
{
    let rank = choose|rank: spec_fn(int) -> nat| ranked(p.waits, rank);
    lemma_no_node_is_forgotten(p, rank, x);
}

proof fn lemma_no_node_is_forgotten(p: Progress, rank: spec_fn(int) -> nat, x: int)
    requires
        p.consistent(),
        p.awaiting(),
        ranked(p.waits, rank),
        0 <= x < p.plan.len(),
    ensures
        p.done.contains(x) || exists|y: int| p.is_held_up(x, y),
    decreases rank(x),
{
    if p.asked.contains(x) {
        if !p.done.contains(x) {
            assert(p.is_held_up(x, x));
        }
    } else {
        assert(!p.is_due(x));
        let c = choose|c: int| p.waits[x].contains(c) && !p.done.contains(c);
        assert(p.waits[x].contains(c) && !p.done.contains(c));
        lemma_no_node_is_forgotten(p, rank, c);
        let y = choose|y: int| p.is_held_up(c, y);
        waiting_is_running_after(p.waits, x, c);
        if c != y {
            runs_after_transitive(p.waits, x, c, y);
        }
        assert(p.is_held_up(x, y));
    }
}

/// A run is over when no job is running. Where no nodes wait for each other in a circle, the whole
/// plan is completed then.
pub proof fn a_run_completes_the_plan(p: Progress)
    requires
        p.consistent(),
        p.awaiting(),
        p.running == Map::<usize, DagNodeId>::empty(),
        acyclic(p.waits),
    ensures
        forall|x: int| 0 <= x < p.plan.len() ==> p.done.contains(x),
{
    assert forall|x: int| 0 <= x < p.plan.len() implies p.done.contains(x) by {
        no_node_is_forgotten(p, x);
    }
}

} // verus!
