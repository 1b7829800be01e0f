//! The tree of a query plan.

use vstd::prelude::*;

use crate::ast::{OperationKind, SelectionSet, SubgraphFetchOperation};
use crate::names::NameSet;

verus! {

/// The plan of one operation.
#[derive(Debug)]
pub struct QueryPlan {
    /// `"QueryPlan"`.
    pub kind: String,
    pub node: Option<PlanNode>,
}

/// A node of a query plan.
#[derive(Debug)]
pub enum PlanNode {
    Fetch(FetchNode),
    Sequence(SequenceNode),
    Parallel(ParallelNode),
    Flatten(FlattenNode),
    Condition(ConditionNode),
    Subscription(SubscriptionNode),
    Defer(DeferNode),
}

/// A request to one subgraph.
#[derive(Debug)]
pub struct FetchNode {
    pub id: i64,
    pub service_name: String,
    pub variable_usages: Option<NameSet>,
    pub operation_kind: Option<OperationKind>,
    pub operation_name: Option<String>,
    pub operation: SubgraphFetchOperation,
    pub requires: Option<SelectionSet>,
    pub input_rewrites: Option<Vec<FetchRewrite>>,
    pub output_rewrites: Option<Vec<FetchRewrite>>,
    /// Explicit dependencies: IDs of fetch nodes that must complete before this one, see
    /// [`crate::order::explicit`].
    pub depends_on: Option<Vec<i64>>,
}

/// A fetch for the objects that a path leads to.
#[derive(Debug)]
pub struct FlattenNode {
    pub path: FlattenNodePath,
    pub node: Box<PlanNode>,
}

/// Nodes that run one after the other.
#[derive(Debug)]
pub struct SequenceNode {
    pub nodes: Vec<PlanNode>,
}

/// Nodes that run side by side.
#[derive(Debug)]
pub struct ParallelNode {
    pub nodes: Vec<PlanNode>,
}

/// A choice between two nodes.
#[derive(Debug)]
pub struct ConditionNode {
    /// The variable name acting as the condition.
    pub condition: String,
    pub if_clause: Option<Box<PlanNode>>,
    pub else_clause: Option<Box<PlanNode>>,
}

/// Gives a key of the addressed objects another name.
#[derive(Debug, PartialEq)]
pub struct KeyRenamer {
    pub path: Vec<FetchNodePathSegment>,
    pub rename_key_to: String,
}

/// One step of the path of a rewrite.
#[derive(Debug, PartialEq)]
pub enum FetchNodePathSegment {
    Key(String),
    TypenameEquals(String),
}

/// A change to the data that goes into or comes out of a fetch.
#[derive(Debug, PartialEq)]
pub enum FetchRewrite {
    ValueSetter(ValueSetter),
    KeyRenamer(KeyRenamer),
}

/// One step of the path of a [`FlattenNode`].
#[derive(Debug, PartialEq)]
pub enum FlattenNodePathSegment {
    Field(String),
    Cast(String),
    List,
}

/// The path to the objects that a [`FlattenNode`] completes.
#[derive(Debug, PartialEq)]
pub struct FlattenNodePath(Vec<FlattenNodePathSegment>);

/// Sets the addressed values.
#[derive(Debug, PartialEq)]
pub struct ValueSetter {
    pub path: Vec<FetchNodePathSegment>,
    pub set_value_to: String,
}

/// The plan of a subscription.
#[derive(Debug)]
pub struct SubscriptionNode {
    pub primary: Box<PlanNode>,
}

/// A plan whose answer comes in several parts.
#[derive(Debug)]
pub struct DeferNode {
    pub primary: DeferPrimary,
    pub deferred: Vec<DeferredNode>,
}

/// The part of a deferred plan that is answered first.
#[derive(Debug)]
pub struct DeferPrimary {
    pub subselection: Option<String>,
    pub node: Option<Box<PlanNode>>,
}

/// A part of a deferred plan that is answered later.
#[derive(Debug)]
pub struct DeferredNode {
    pub depends: Vec<DeferDependency>,
    pub label: Option<String>,
    pub query_path: Vec<String>,
    pub subselection: Option<String>,
    pub node: Option<Box<PlanNode>>,
}

/// What a deferred part waits for.
#[derive(Debug)]
pub struct DeferDependency {
    pub id: String,
    pub defer_label: Option<String>,
}

impl Clone for FetchNodePathSegment {
    fn clone(&self) -> (copy: Self)
        ensures
            copy == *self,
    {
        match self {
            FetchNodePathSegment::Key(key) => FetchNodePathSegment::Key(key.clone()),
            FetchNodePathSegment::TypenameEquals(name) => FetchNodePathSegment::TypenameEquals(
                name.clone(),
            ),
        }
    }
}

impl Clone for FlattenNodePathSegment {
    fn clone(&self) -> (copy: Self)
        ensures
            copy == *self,
    {
        match self {
            FlattenNodePathSegment::Field(name) => FlattenNodePathSegment::Field(name.clone()),
            FlattenNodePathSegment::Cast(name) => FlattenNodePathSegment::Cast(name.clone()),
            FlattenNodePathSegment::List => FlattenNodePathSegment::List,
        }
    }
}

impl Clone for FlattenNodePath {
    fn clone(&self) -> (copy: Self)
        ensures
            copy@ == self@,
    {
        let segments = self.0.clone();
        assert(segments@ =~= self.0@);
        FlattenNodePath(segments)
    }
}

/// The view of a [`FetchRewrite`].
pub enum FetchRewriteView {
    ValueSetter { path: Seq<FetchNodePathSegment>, set_value_to: Seq<char> },
    KeyRenamer { path: Seq<FetchNodePathSegment>, rename_key_to: Seq<char> },
}

impl View for FetchRewrite {
    type V = FetchRewriteView;

    open spec fn view(&self) -> FetchRewriteView {
        match *self {
            FetchRewrite::ValueSetter(setter) => FetchRewriteView::ValueSetter {
                path: setter.path@,
                set_value_to: setter.set_value_to@,
            },
            FetchRewrite::KeyRenamer(renamer) => FetchRewriteView::KeyRenamer {
                path: renamer.path@,
                rename_key_to: renamer.rename_key_to@,
            },
        }
    }
}

impl Clone for ValueSetter {
    fn clone(&self) -> (copy: Self)
        ensures
            copy.path@ == self.path@,
            copy.set_value_to@ == self.set_value_to@,
    {
        let path = self.path.clone();
        assert(path@ =~= self.path@);
        ValueSetter { path, set_value_to: self.set_value_to.clone() }
    }
}

impl Clone for KeyRenamer {
    fn clone(&self) -> (copy: Self)
        ensures
            copy.path@ == self.path@,
            copy.rename_key_to@ == self.rename_key_to@,
    {
        let path = self.path.clone();
        assert(path@ =~= self.path@);
        KeyRenamer { path, rename_key_to: self.rename_key_to.clone() }
    }
}

impl Clone for FetchRewrite {
    fn clone(&self) -> (copy: Self)
        ensures
            copy@ == self@,
    {
        match self {
            FetchRewrite::ValueSetter(setter) => FetchRewrite::ValueSetter(setter.clone()),
            FetchRewrite::KeyRenamer(renamer) => FetchRewrite::KeyRenamer(renamer.clone()),
        }
    }
}

/// The views of rewrites, in their order.
pub open spec fn rewrites_view(rewrites: Seq<FetchRewrite>) -> Seq<FetchRewriteView> {
    rewrites.map_values(|rewrite: FetchRewrite| rewrite@)
}

/// The views of the rewrites of a fetch, where it has any.
pub open spec fn opt_rewrites_view(rewrites: Option<Vec<FetchRewrite>>) -> Option<
    Seq<FetchRewriteView>,
> {
    match rewrites {
        Some(rewrites) => Some(rewrites_view(rewrites@)),
        None => None,
    }
}

/// Copies the rewrites of a fetch.
pub(crate) fn clone_rewrites(rewrites: &Option<Vec<FetchRewrite>>) -> (copy: Option<
    Vec<FetchRewrite>,
>)
    ensures
        opt_rewrites_view(copy) == opt_rewrites_view(*rewrites),
{
    match rewrites {
        Some(rewrites) => {
            let copy = rewrites.clone();
            assert(rewrites_view(copy@) =~= rewrites_view(rewrites@));
            Some(copy)
        },
        None => None,
    }
}

impl View for FlattenNodePath {
    type V = Seq<FlattenNodePathSegment>;

    closed spec fn view(&self) -> Seq<FlattenNodePathSegment> {
        self.0@
    }
}

impl FlattenNodePath {
    /// The path with these segments.
    pub fn new(segments: Vec<FlattenNodePathSegment>) -> (path: Self)
        ensures
            path@ == segments@,
    {
        FlattenNodePath(segments)
    }

    /// The segments of the path.
    pub fn as_slice(&self) -> (segments: &[FlattenNodePathSegment])
        ensures
            segments@ == self@,
    {
        self.0.as_slice()
    }
}

/// Whether a walk over the fetches of `node` meets no [`DeferNode`].
pub open spec fn without_defer(node: PlanNode) -> bool
    decreases node,
{
    match node {
        PlanNode::Fetch(_) => true,
        PlanNode::Sequence(sequence) => forall|i: int|
            0 <= i < sequence.nodes@.len() ==> without_defer(#[trigger] sequence.nodes@[i]),
        PlanNode::Parallel(parallel) => forall|i: int|
            0 <= i < parallel.nodes@.len() ==> without_defer(#[trigger] parallel.nodes@[i]),
        PlanNode::Flatten(flatten) => without_defer(*flatten.node),
        PlanNode::Condition(condition) => {
            &&& condition.if_clause matches Some(clause) ==> without_defer(*clause)
            &&& condition.else_clause matches Some(clause) ==> without_defer(*clause)
        },
        PlanNode::Subscription(subscription) => without_defer(*subscription.primary),
        PlanNode::Defer(_) => false,
    }
}

/// The fetches under a node, in the order of the plan; of a condition, those of the else clause
/// come before those of the if clause.
pub open spec fn fetches(node: PlanNode) -> Seq<FetchNode>
    decreases node, 0int,
{
    match node {
        PlanNode::Fetch(fetch) => seq![fetch],
        PlanNode::Sequence(sequence) => fetches_of_first(
            sequence.nodes@,
            sequence.nodes@.len() as int,
        ),
        PlanNode::Parallel(parallel) => fetches_of_first(
            parallel.nodes@,
            parallel.nodes@.len() as int,
        ),
        PlanNode::Flatten(flatten) => fetches(*flatten.node),
        PlanNode::Condition(condition) => {
            let of_else = match condition.else_clause {
                Some(clause) => fetches(*clause),
                None => Seq::empty(),
            };
            let of_if = match condition.if_clause {
                Some(clause) => fetches(*clause),
                None => Seq::empty(),
            };
            of_else + of_if
        },
        PlanNode::Subscription(subscription) => fetches(*subscription.primary),
        PlanNode::Defer(_) => Seq::empty(),
    }
}

/// The fetches under the first `n` of some nodes.
pub open spec fn fetches_of_first(nodes: Seq<PlanNode>, n: int) -> Seq<FetchNode>
    decreases nodes, n,
{
    if n <= 0 || n > nodes.len() {
        Seq::empty()
    } else {
        fetches_of_first(nodes, n - 1) + fetches(nodes[n - 1])
    }
}

impl QueryPlan {
    /// The fetches of the plan, see [`fetches`].
    pub open spec fn fetches(&self) -> Seq<FetchNode> {
        match self.node {
            Some(node) => fetches(node),
            None => Seq::empty(),
        }
    }

    /// Whether a walk over the fetches of the plan meets no [`DeferNode`].
    pub open spec fn without_defer(&self) -> bool {
        self.node matches Some(node) ==> without_defer(node)
    }
}

/// The nodes that references refer to.
pub open spec fn referred<T>(references: Seq<&T>) -> Seq<T> {
    references.map_values(|reference: &T| *reference)
}

impl QueryPlan {
    /// The fetches of the plan, see [`fetches`].
    pub fn fetch_nodes(&self) -> (list: Vec<&FetchNode>)
        requires
            self.without_defer(),
        ensures
            referred(list@) == self.fetches(),
    {
        match self.node.as_ref() {
            Some(node) => {
                let mut list: Vec<&FetchNode> = Vec::new();
                Self::fetch_nodes_from_node(node, &mut list);
                assert(referred(list@) =~= fetches(*node));
                list
            },
            None => {
                let list: Vec<&FetchNode> = Vec::new();
                assert(referred(list@) =~= Seq::empty());
                list
            },
        }
    }

    /// Adds the fetches under a node to a list.
    pub fn fetch_nodes_from_node<'a>(node: &'a PlanNode, list: &mut Vec<&'a FetchNode>)
        requires
            without_defer(*node),
        ensures
            referred(final(list)@) == referred(old(list)@) + fetches(*node),
    {
        collect_fetches(node, list);
    }
}

/// Adds the fetches under a node to a list. Deferred plans are passed over.
pub(crate) fn collect_fetches<'a>(node: &'a PlanNode, list: &mut Vec<&'a FetchNode>)
    ensures
        referred(final(list)@) == referred(old(list)@) + fetches(*node),
    decreases node,
{
    let ghost before = referred(list@);
    match node {
        PlanNode::Condition(condition) => {
            if let Some(clause) = condition.else_clause.as_ref() {
                collect_fetches(clause, list);
            }
            if let Some(clause) = condition.if_clause.as_ref() {
                collect_fetches(clause, list);
            }
            assert(referred(list@) =~= before + fetches(*node));
        },
        PlanNode::Fetch(fetch) => {
            list.push(fetch);
            assert(referred(list@) =~= before + fetches(*node));
        },
        PlanNode::Sequence(sequence) => {
            collect_fetches_of_all(&sequence.nodes, list);
        },
        PlanNode::Parallel(parallel) => {
            collect_fetches_of_all(&parallel.nodes, list);
        },
        PlanNode::Flatten(flatten) => {
            collect_fetches(&flatten.node, list);
        },
        PlanNode::Subscription(subscription) => {
            collect_fetches(&subscription.primary, list);
        },
        PlanNode::Defer(_) => {
            assert(before + fetches(*node) =~= before);
        },
    }
}

fn collect_fetches_of_all<'a>(nodes: &'a Vec<PlanNode>, list: &mut Vec<&'a FetchNode>)
    ensures
        referred(final(list)@) == referred(old(list)@) + fetches_of_first(
            nodes@,
            nodes@.len() as int,
        ),
    decreases nodes,
{
    let ghost before = referred(list@);
    assert(before + fetches_of_first(nodes@, 0) =~= before);
    for i in 0..nodes.len()
        invariant
            referred(list@) == before + fetches_of_first(nodes@, i as int),
    {
        let ghost so_far = referred(list@);
        collect_fetches(&nodes[i], list);
        assert(so_far + fetches(nodes@[i as int]) =~= before + (fetches_of_first(
            nodes@,
            i as int,
        ) + fetches(nodes@[i as int])));
    }
}

impl PlanNode {
    /// Whether the fetches under the node can be listed, see [`without_defer`].
    pub fn is_without_defer(&self) -> (listable: bool)
        ensures
            listable == without_defer(*self),
        decreases self,
    {
        match self {
            PlanNode::Fetch(_) => true,
            PlanNode::Sequence(sequence) => Self::all_without_defer(&sequence.nodes),
            PlanNode::Parallel(parallel) => Self::all_without_defer(&parallel.nodes),
            PlanNode::Flatten(flatten) => flatten.node.is_without_defer(),
            PlanNode::Condition(condition) => {
                let of_if = match &condition.if_clause {
                    Some(clause) => clause.is_without_defer(),
                    None => true,
                };
                let of_else = match &condition.else_clause {
                    Some(clause) => clause.is_without_defer(),
                    None => true,
                };
                of_if && of_else
            },
            PlanNode::Subscription(subscription) => subscription.primary.is_without_defer(),
            PlanNode::Defer(_) => false,
        }
    }

    fn all_without_defer(nodes: &Vec<PlanNode>) -> (listable: bool)
        ensures
            listable == forall|i: int|
                0 <= i < nodes@.len() ==> without_defer(#[trigger] nodes@[i]),
        decreases nodes,
    {
        for i in 0..nodes.len()
            invariant
                forall|j: int| 0 <= j < i ==> without_defer(#[trigger] nodes@[j]),
        {
            if !nodes[i].is_without_defer() {
                return false;
            }
        }
        true
    }
}

impl PlanNode {
    /// The nodes of a group; any other node is a group of its own.
    pub fn into_nodes(self) -> (nodes: Vec<PlanNode>)
        ensures
            nodes@ == self.group(),
    {
        match self {
            PlanNode::Sequence(node) => node.nodes,
            PlanNode::Parallel(node) => node.nodes,
            other => {
                let mut nodes: Vec<PlanNode> = Vec::new();
                nodes.push(other);
                assert(nodes@ =~= seq![self]);
                nodes
            },
        }
    }

    /// What [`PlanNode::into_nodes`] gives.
    pub open spec fn group(self) -> Seq<PlanNode> {
        match self {
            PlanNode::Sequence(sequence) => sequence.nodes@,
            PlanNode::Parallel(parallel) => parallel.nodes@,
            _ => seq![self],
        }
    }
}

/// Taking a node apart with [`PlanNode::into_nodes`] loses no fetch and keeps their order.
pub proof fn into_nodes_keeps_fetches(node: PlanNode)
    ensures
        fetches_of_first(node.group(), node.group().len() as int) == fetches(node),
{
    match node {
        PlanNode::Sequence(_) => {},
        PlanNode::Parallel(_) => {},
        _ => {
            reveal_with_fuel(fetches_of_first, 2);
            assert(fetches_of_first(node.group(), 1) =~= fetches(node));
        },
    }
}

} // verus!
