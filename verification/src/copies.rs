//! Copies of plans.
//!
//! The view of a plan is the same tree over mathematical strings and sequences. A copy has the view
//! of the plan that it was copied from.

use vstd::prelude::*;

use crate::ast::{opt_text, OperationKind, SelectionItemView, SubgraphFetchOperationView};
use crate::order::{
    depends, ends, ends_in_parallel, ends_in_sequence, explicit, holds_fetch, needs_fetch,
    plan_waits, waits, waits_for_each, waits_in_parallel, waits_in_sequence, work, work_of_first,
};
use crate::plan_nodes::{
    clone_rewrites, fetches, fetches_of_first, opt_rewrites_view, ConditionNode, DeferDependency, DeferNode, DeferPrimary,
    DeferredNode, FetchNode, FetchRewriteView, FlattenNode, FlattenNodePathSegment, ParallelNode,
    PlanNode, QueryPlan, SequenceNode, SubscriptionNode,
};

verus! {

/// The view of a [`FetchNode`].
pub struct FetchNodeView {
    pub id: i64,
    pub service_name: Seq<char>,
    pub variable_usages: Option<Seq<Seq<char>>>,
    pub operation_kind: Option<OperationKind>,
    pub operation_name: Option<Seq<char>>,
    pub operation: SubgraphFetchOperationView,
    pub requires_set: Option<Seq<SelectionItemView>>,
    pub input_rewrites: Option<Seq<FetchRewriteView>>,
    pub output_rewrites: Option<Seq<FetchRewriteView>>,
    pub depends_on: Option<Seq<i64>>,
}

impl View for FetchNode {
    type V = FetchNodeView;

    open spec fn view(&self) -> FetchNodeView {
        FetchNodeView {
            id: self.id,
            service_name: self.service_name@,
            variable_usages: match self.variable_usages {
                Some(usages) => Some(usages.ordered()),
                None => None,
            },
            operation_kind: self.operation_kind,
            operation_name: opt_text(self.operation_name),
            operation: self.operation@,
            requires_set: match self.requires {
                Some(set) => Some(set@),
                None => None,
            },
            input_rewrites: opt_rewrites_view(self.input_rewrites),
            output_rewrites: opt_rewrites_view(self.output_rewrites),
            depends_on: match self.depends_on {
                Some(ids) => Some(ids@),
                None => None,
            },
        }
    }
}

impl Clone for FetchNode {
    fn clone(&self) -> (copy: Self)
        ensures
            copy@ == self@,
    {
        let depends_on = match &self.depends_on {
            Some(ids) => {
                let copy = ids.clone();
                assert(copy@ =~= ids@);
                Some(copy)
            },
            None => None,
        };
        FetchNode {
            id: self.id,
            service_name: self.service_name.clone(),
            variable_usages: self.variable_usages.clone(),
            operation_kind: self.operation_kind,
            operation_name: self.operation_name.clone(),
            operation: self.operation.clone(),
            requires: self.requires.clone(),
            input_rewrites: clone_rewrites(&self.input_rewrites),
            output_rewrites: clone_rewrites(&self.output_rewrites),
            depends_on,
        }
    }
}

/// The view of a [`DeferDependency`].
pub struct DeferDependencyView {
    pub id: Seq<char>,
    pub defer_label: Option<Seq<char>>,
}

impl View for DeferDependency {
    type V = DeferDependencyView;

    open spec fn view(&self) -> DeferDependencyView {
        DeferDependencyView { id: self.id@, defer_label: opt_text(self.defer_label) }
    }
}

impl Clone for DeferDependency {
    fn clone(&self) -> (copy: Self)
        ensures
            copy@ == self@,
    {
        DeferDependency { id: self.id.clone(), defer_label: self.defer_label.clone() }
    }
}

/// The view of a [`PlanNode`].
pub enum PlanNodeView {
    Fetch(FetchNodeView),
    Sequence(Seq<PlanNodeView>),
    Parallel(Seq<PlanNodeView>),
    Flatten { path: Seq<FlattenNodePathSegment>, node: Box<PlanNodeView> },
    Condition {
        condition: Seq<char>,
        if_clause: Option<Box<PlanNodeView>>,
        else_clause: Option<Box<PlanNodeView>>,
    },
    Subscription(Box<PlanNodeView>),
    Defer {
        subselection: Option<Seq<char>>,
        primary: Option<Box<PlanNodeView>>,
        deferred: Seq<DeferredNodeView>,
    },
}

/// The view of a [`DeferredNode`].
pub struct DeferredNodeView {
    pub depends: Seq<DeferDependencyView>,
    pub label: Option<Seq<char>>,
    pub query_path: Seq<Seq<char>>,
    pub subselection: Option<Seq<char>>,
    pub node: Option<Box<PlanNodeView>>,
}

pub open spec fn plan_node_view(node: PlanNode) -> PlanNodeView
    decreases node,
{
    match node {
        PlanNode::Fetch(fetch) => PlanNodeView::Fetch(fetch@),
        PlanNode::Sequence(sequence) => PlanNodeView::Sequence(plan_nodes_view(sequence.nodes@)),
        PlanNode::Parallel(parallel) => PlanNodeView::Parallel(plan_nodes_view(parallel.nodes@)),
        PlanNode::Flatten(flatten) => PlanNodeView::Flatten {
            path: flatten.path@,
            node: Box::new(plan_node_view(*flatten.node)),
        },
        PlanNode::Condition(condition) => PlanNodeView::Condition {
            condition: condition.condition@,
            if_clause: opt_node_view(condition.if_clause),
            else_clause: opt_node_view(condition.else_clause),
        },
        PlanNode::Subscription(subscription) => PlanNodeView::Subscription(
            Box::new(plan_node_view(*subscription.primary)),
        ),
        PlanNode::Defer(defer) => PlanNodeView::Defer {
            subselection: opt_text(defer.primary.subselection),
            primary: opt_node_view(defer.primary.node),
            deferred: Seq::new(
                defer.deferred@.len(),
                |i: int|
                    if 0 <= i < defer.deferred@.len() {
                        deferred_node_view(defer.deferred@[i])
                    } else {
                        arbitrary()
                    },
            ),
        },
    }
}

pub open spec fn plan_nodes_view(nodes: Seq<PlanNode>) -> Seq<PlanNodeView>
    decreases nodes,
{
    Seq::new(
        nodes.len(),
        |i: int|
            if 0 <= i < nodes.len() {
                plan_node_view(nodes[i])
            } else {
                arbitrary()
            },
    )
}

pub open spec fn opt_node_view(node: Option<Box<PlanNode>>) -> Option<Box<PlanNodeView>>
    decreases node,
{
    match node {
        Some(node) => Some(Box::new(plan_node_view(*node))),
        None => None,
    }
}

pub open spec fn deferred_node_view(deferred: DeferredNode) -> DeferredNodeView
    decreases deferred,
{
    DeferredNodeView {
        depends: deferred.depends@.map_values(|dependency: DeferDependency| dependency@),
        label: opt_text(deferred.label),
        query_path: deferred.query_path@.map_values(|name: String| name@),
        subselection: opt_text(deferred.subselection),
        node: opt_node_view(deferred.node),
    }
}

impl View for PlanNode {
    type V = PlanNodeView;

    open spec fn view(&self) -> PlanNodeView {
        plan_node_view(*self)
    }
}

/// Copies a node where there is one.
fn clone_opt_node(node: &Option<Box<PlanNode>>) -> (copy: Option<Box<PlanNode>>)
    ensures
        opt_node_view(copy) == opt_node_view(*node),
    decreases node,
{
    match node {
        Some(node) => Some(Box::new((&**node).clone())),
        None => None,
    }
}

/// Copies nodes.
fn clone_nodes(nodes: &Vec<PlanNode>) -> (copies: Vec<PlanNode>)
    ensures
        plan_nodes_view(copies@) == plan_nodes_view(nodes@),
    decreases nodes,
{
    let mut copies: Vec<PlanNode> = Vec::new();
    for i in 0..nodes.len()
        invariant
            copies@.len() == i,
            forall|j: int| 0 <= j < i ==> copies@[j]@ == nodes@[j]@,
    {
        copies.push(nodes[i].clone());
    }
    assert(plan_nodes_view(copies@) =~= plan_nodes_view(nodes@));
    copies
}

impl Clone for PlanNode {
    fn clone(&self) -> (copy: Self)
        ensures
            copy@ == self@,
        decreases self,
    {
        match self {
            PlanNode::Fetch(node) => PlanNode::Fetch(node.clone()),
            PlanNode::Sequence(node) => PlanNode::Sequence(node.clone()),
            PlanNode::Parallel(node) => PlanNode::Parallel(node.clone()),
            PlanNode::Flatten(node) => PlanNode::Flatten(node.clone()),
            PlanNode::Condition(node) => PlanNode::Condition(node.clone()),
            PlanNode::Subscription(node) => PlanNode::Subscription(node.clone()),
            PlanNode::Defer(node) => PlanNode::Defer(node.clone()),
        }
    }
}

impl Clone for SequenceNode {
    fn clone(&self) -> (copy: Self)
        ensures
            PlanNode::Sequence(copy)@ == PlanNode::Sequence(*self)@,
        decreases self,
    {
        SequenceNode { nodes: clone_nodes(&self.nodes) }
    }
}

impl Clone for ParallelNode {
    fn clone(&self) -> (copy: Self)
        ensures
            PlanNode::Parallel(copy)@ == PlanNode::Parallel(*self)@,
        decreases self,
    {
        ParallelNode { nodes: clone_nodes(&self.nodes) }
    }
}

impl Clone for FlattenNode {
    fn clone(&self) -> (copy: Self)
        ensures
            PlanNode::Flatten(copy)@ == PlanNode::Flatten(*self)@,
        decreases self,
    {
        FlattenNode { path: self.path.clone(), node: Box::new((&*self.node).clone()) }
    }
}

impl Clone for ConditionNode {
    fn clone(&self) -> (copy: Self)
        ensures
            PlanNode::Condition(copy)@ == PlanNode::Condition(*self)@,
        decreases self,
    {
        ConditionNode {
            condition: self.condition.clone(),
            if_clause: clone_opt_node(&self.if_clause),
            else_clause: clone_opt_node(&self.else_clause),
        }
    }
}

impl Clone for SubscriptionNode {
    fn clone(&self) -> (copy: Self)
        ensures
            PlanNode::Subscription(copy)@ == PlanNode::Subscription(*self)@,
        decreases self,
    {
        SubscriptionNode { primary: Box::new((&*self.primary).clone()) }
    }
}

impl Clone for DeferPrimary {
    fn clone(&self) -> (copy: Self)
        ensures
            opt_text(copy.subselection) == opt_text(self.subselection),
            opt_node_view(copy.node) == opt_node_view(self.node),
        decreases self,
    {
        DeferPrimary {
            subselection: self.subselection.clone(),
            node: clone_opt_node(&self.node),
        }
    }
}

impl Clone for DeferredNode {
    fn clone(&self) -> (copy: Self)
        ensures
            deferred_node_view(copy) == deferred_node_view(*self),
        decreases self,
    {
        let depends = self.depends.clone();
        let query_path = self.query_path.clone();
        let copy = DeferredNode {
            depends,
            label: self.label.clone(),
            query_path,
            subselection: self.subselection.clone(),
            node: clone_opt_node(&self.node),
        };
        proof {
            let (after, before) = (deferred_node_view(copy), deferred_node_view(*self));
            assert(after.depends =~= before.depends);
            assert(after.query_path =~= before.query_path);
        }
        copy
    }
}

impl Clone for DeferNode {
    fn clone(&self) -> (copy: Self)
        ensures
            PlanNode::Defer(copy)@ == PlanNode::Defer(*self)@,
        decreases self,
    {
        let mut deferred: Vec<DeferredNode> = Vec::new();
        for i in 0..self.deferred.len()
            invariant
                deferred@.len() == i,
                forall|j: int|
                    0 <= j < i ==> deferred_node_view(deferred@[j]) == deferred_node_view(
                        self.deferred@[j],
                    ),
        {
            deferred.push(self.deferred[i].clone());
        }
        let copy = DeferNode { primary: self.primary.clone(), deferred };
        assert(PlanNode::Defer(copy)@->deferred =~= PlanNode::Defer(*self)@->deferred);
        copy
    }
}

/// The view of a [`QueryPlan`].
pub struct QueryPlanView {
    pub kind: Seq<char>,
    pub node: Option<PlanNodeView>,
}

impl View for QueryPlan {
    type V = QueryPlanView;

    open spec fn view(&self) -> QueryPlanView {
        QueryPlanView {
            kind: self.kind@,
            node: match self.node {
                Some(node) => Some(node@),
                None => None,
            },
        }
    }
}

impl Clone for QueryPlan {
    fn clone(&self) -> (copy: Self)
        ensures
            copy@ == self@,
    {
        QueryPlan {
            kind: self.kind.clone(),
            node: match &self.node {
                Some(node) => Some(node.clone()),
                None => None,
            },
        }
    }
}

/// A copy of a plan runs as the plan does: its work nodes are copies of those of the plan, and wait
/// for each other in the same way.
pub proof fn copies_run_alike(a: PlanNode, b: PlanNode)
    requires
        a@ == b@,
    ensures
        plan_nodes_view(work(a)) == plan_nodes_view(work(b)),
        plan_waits(a) == plan_waits(b),
{
    lemma_ordered_alike(a, b, 0, Set::empty());
    waits_for_each(a, 0, Set::empty());
    lemma_same_nodes(work(a), work(b));
    assert forall|j: int| 0 <= j < work(a).len() implies explicit(work(a), j) =~= explicit(
        work(b),
        j,
    ) by {
        assert forall|i: int| 0 <= i < work(a).len() implies (#[trigger] depends(work(a), j, i)
            <==> depends(work(b), j, i)) by {
            if depends(work(a), j, i) {
                lemma_depend_alike(work(a), work(b), j, i);
            }
            if depends(work(b), j, i) {
                lemma_depend_alike(work(b), work(a), j, i);
            }
        }
    }
    assert(plan_waits(a) =~= plan_waits(b));
}

/// The views of fetches, in their order.
pub open spec fn fetches_view(nodes: Seq<FetchNode>) -> Seq<FetchNodeView> {
    nodes.map_values(|node: FetchNode| node@)
}

/// A copy of a plan holds copies of its fetches.
pub proof fn copies_fetch_alike(a: PlanNode, b: PlanNode)
    requires
        a@ == b@,
    ensures
        fetches_view(fetches(a)) == fetches_view(fetches(b)),
    decreases a, 1int,
{
    match (a, b) {
        (PlanNode::Sequence(a), PlanNode::Sequence(b)) => {
            lemma_all_fetch_alike(a.nodes@, b.nodes@, a.nodes@.len() as int);
        },
        (PlanNode::Parallel(a), PlanNode::Parallel(b)) => {
            lemma_all_fetch_alike(a.nodes@, b.nodes@, a.nodes@.len() as int);
        },
        (PlanNode::Flatten(a), PlanNode::Flatten(b)) => {
            copies_fetch_alike(*a.node, *b.node);
        },
        (PlanNode::Condition(c), PlanNode::Condition(d)) => {
            assert(a@->else_clause == opt_node_view(c.else_clause));
            assert(b@->else_clause == opt_node_view(d.else_clause));
            assert(a@->if_clause == opt_node_view(c.if_clause));
            assert(b@->if_clause == opt_node_view(d.if_clause));
            lemma_clauses_fetch_alike(c.else_clause, d.else_clause);
            lemma_clauses_fetch_alike(c.if_clause, d.if_clause);
            lemma_fetch_views_concat(clause_fetches(c.else_clause), clause_fetches(c.if_clause));
            lemma_fetch_views_concat(clause_fetches(d.else_clause), clause_fetches(d.if_clause));
        },
        (PlanNode::Subscription(a), PlanNode::Subscription(b)) => {
            copies_fetch_alike(*a.primary, *b.primary);
        },
        _ => {
            assert(fetches_view(fetches(a)) =~= fetches_view(fetches(b)));
        },
    }
}

/// The fetches under a clause of a condition.
spec fn clause_fetches(clause: Option<Box<PlanNode>>) -> Seq<FetchNode> {
    match clause {
        Some(node) => fetches(*node),
        None => Seq::empty(),
    }
}

proof fn lemma_clauses_fetch_alike(a: Option<Box<PlanNode>>, b: Option<Box<PlanNode>>)
    requires
        opt_node_view(a) == opt_node_view(b),
    ensures
        fetches_view(clause_fetches(a)) == fetches_view(clause_fetches(b)),
    decreases a, 1int,
{
    if let (Some(x), Some(y)) = (a, b) {
        copies_fetch_alike(*x, *y);
    }
}

proof fn lemma_all_fetch_alike(a: Seq<PlanNode>, b: Seq<PlanNode>, n: int)
    requires
        plan_nodes_view(a) == plan_nodes_view(b),
        0 <= n <= a.len(),
    ensures
        a.len() == b.len(),
        fetches_view(fetches_of_first(a, n)) == fetches_view(fetches_of_first(b, n)),
    decreases a, n,
{
    lemma_same_nodes(a, b);
    if n > 0 {
        lemma_all_fetch_alike(a, b, n - 1);
        assert(a[n - 1]@ == b[n - 1]@);
        copies_fetch_alike(a[n - 1], b[n - 1]);
        lemma_fetch_views_concat(fetches_of_first(a, n - 1), fetches(a[n - 1]));
        lemma_fetch_views_concat(fetches_of_first(b, n - 1), fetches(b[n - 1]));
    } else {
        assert(fetches_view(fetches_of_first(a, n)) =~= fetches_view(fetches_of_first(b, n)));
    }
}

proof fn lemma_fetch_views_concat(a: Seq<FetchNode>, b: Seq<FetchNode>)
    ensures
        fetches_view(a + b) == fetches_view(a) + fetches_view(b),
{
    assert(fetches_view(a + b) =~= fetches_view(a) + fetches_view(b));
}

/// What depends on each other explicitly, does so in a copy.
proof fn lemma_depend_alike(a: Seq<PlanNode>, b: Seq<PlanNode>, j: int, i: int)
    requires
        a.len() == b.len(),
        0 <= j < a.len(),
        0 <= i < a.len(),
        a[j]@ == b[j]@,
        a[i]@ == b[i]@,
        depends(a, j, i),
    ensures
        depends(b, j, i),
{
    let id = choose|id: i64| #[trigger] needs_fetch(a[j], id) && holds_fetch(a[i], id);
    copies_fetch_alike(a[j], b[j]);
    copies_fetch_alike(a[i], b[i]);
    let (of_a, of_b) = (fetches(a[j]), fetches(b[j]));
    let k = choose|k: int|
        0 <= k < of_a.len() && ((#[trigger] of_a[k]).depends_on matches Some(ids) && ids@.contains(
            id,
        ));
    assert(fetches_view(of_a)[k] == of_a[k]@);
    assert(fetches_view(of_a).len() == of_a.len());
    assert(fetches_view(of_b).len() == of_b.len());
    assert(fetches_view(of_b)[k] == of_b[k]@);
    assert(of_a[k]@.depends_on == of_b[k]@.depends_on);
    assert(needs_fetch(b[j], id));
    let (in_a, in_b) = (fetches(a[i]), fetches(b[i]));
    let m = choose|m: int| 0 <= m < in_a.len() && (#[trigger] in_a[m]).id == id;
    assert(fetches_view(in_a).len() == in_a.len());
    assert(fetches_view(in_b).len() == in_b.len());
    assert(fetches_view(in_a)[m] == in_a[m]@);
    assert(fetches_view(in_b)[m] == in_b[m]@);
    assert(in_b[m].id == id);
    assert(holds_fetch(b[i], id));
}

/// The trees of a plan and of a copy of it order their work nodes alike.
proof fn lemma_ordered_alike(a: PlanNode, b: PlanNode, base: int, before: Set<int>)
    requires
        a@ == b@,
    ensures
        plan_nodes_view(work(a)) == plan_nodes_view(work(b)),
        waits(a, base, before) == waits(b, base, before),
        ends(a, base, before) == ends(b, base, before),
    decreases a, 1int,
{
    match (a, b) {
        (PlanNode::Sequence(a), PlanNode::Sequence(b)) => {
            lemma_sequences_ordered_alike(a.nodes@, b.nodes@, a.nodes@.len() as int, base, before);
        },
        (PlanNode::Parallel(a), PlanNode::Parallel(b)) => {
            let n = a.nodes@.len() as int;
            lemma_groups_ordered_alike(a.nodes@, b.nodes@, n, base, before);
            lemma_same_nodes(work_of_first(a.nodes@, n), work_of_first(b.nodes@, n));
        },
        _ => {
            assert(plan_nodes_view(work(a)) =~= plan_nodes_view(work(b)));
        },
    }
}

proof fn lemma_sequences_ordered_alike(
    a: Seq<PlanNode>,
    b: Seq<PlanNode>,
    n: int,
    base: int,
    before: Set<int>,
)
    requires
        plan_nodes_view(a) == plan_nodes_view(b),
        0 <= n <= a.len(),
    ensures
        a.len() == b.len(),
        plan_nodes_view(work_of_first(a, n)) == plan_nodes_view(work_of_first(b, n)),
        waits_in_sequence(a, n, base, before) == waits_in_sequence(b, n, base, before),
        ends_in_sequence(a, n, base, before) == ends_in_sequence(b, n, base, before),
    decreases a, n,
{
    lemma_same_nodes(a, b);
    if n > 0 {
        lemma_sequences_ordered_alike(a, b, n - 1, base, before);
        let (of_a, of_b) = (work_of_first(a, n - 1), work_of_first(b, n - 1));
        lemma_same_nodes(of_a, of_b);
        assert(a[n - 1]@ == b[n - 1]@);
        lemma_ordered_alike(
            a[n - 1],
            b[n - 1],
            base + of_a.len(),
            ends_in_sequence(a, n - 1, base, before),
        );
        lemma_views_concat(of_a, work(a[n - 1]));
        lemma_views_concat(of_b, work(b[n - 1]));
    }
}

proof fn lemma_groups_ordered_alike(
    a: Seq<PlanNode>,
    b: Seq<PlanNode>,
    n: int,
    base: int,
    before: Set<int>,
)
    requires
        plan_nodes_view(a) == plan_nodes_view(b),
        0 <= n <= a.len(),
    ensures
        a.len() == b.len(),
        plan_nodes_view(work_of_first(a, n)) == plan_nodes_view(work_of_first(b, n)),
        waits_in_parallel(a, n, base, before) == waits_in_parallel(b, n, base, before),
        ends_in_parallel(a, n, base, before) == ends_in_parallel(b, n, base, before),
    decreases a, n,
{
    lemma_same_nodes(a, b);
    if n > 0 {
        lemma_groups_ordered_alike(a, b, n - 1, base, before);
        let (of_a, of_b) = (work_of_first(a, n - 1), work_of_first(b, n - 1));
        lemma_same_nodes(of_a, of_b);
        assert(a[n - 1]@ == b[n - 1]@);
        lemma_ordered_alike(a[n - 1], b[n - 1], base + of_a.len(), before);
        lemma_same_nodes(work(a[n - 1]), work(b[n - 1]));
        lemma_views_concat(of_a, work(a[n - 1]));
        lemma_views_concat(of_b, work(b[n - 1]));
    }
}

proof fn lemma_same_nodes(a: Seq<PlanNode>, b: Seq<PlanNode>)
    requires
        plan_nodes_view(a) == plan_nodes_view(b),
    ensures
        a.len() == b.len(),
        forall|i: int| 0 <= i < a.len() ==> (#[trigger] a[i])@ == b[i]@,
{
    assert(plan_nodes_view(a).len() == a.len());
    assert(plan_nodes_view(b).len() == b.len());
    assert forall|i: int| 0 <= i < a.len() implies (#[trigger] a[i])@ == b[i]@ by {
        assert(plan_nodes_view(a)[i] == a[i]@);
        assert(plan_nodes_view(b)[i] == b[i]@);
    }
}

proof fn lemma_views_concat(a: Seq<PlanNode>, b: Seq<PlanNode>)
    ensures
        plan_nodes_view(a + b) == plan_nodes_view(a) + plan_nodes_view(b),
{
    assert(plan_nodes_view(a + b) =~= plan_nodes_view(a) + plan_nodes_view(b));
}

} // verus!
