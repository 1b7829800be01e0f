//! Calls that make a plan and take it apart.

use vstd::prelude::*;

use crate::ast::{
    Condition, MergePath, OperationDefinition, OperationKind, Segment, SelectionSet,
    SubgraphFetchOperation, TypeAwareSelection,
};
use crate::fetch_step::{
    comes_from_step, create_input_selection_set, create_output_operation, entities_operation,
    entities_operation_definition, kind_on_type, operation_definition, plans_step, query_hash,
    FetchStepData, Supergraph,
};
use crate::laws::planning::{
    a_fetch_is_that_of_its_step, a_fetch_sends_the_operation_of_its_step,
    a_step_is_planned_in_its_place, asks_for_entities, declares_representations,
    entities_are_asked_for_the_output, is_fragment, kinds_go_by_the_root_type, stands_in_place,
    the_operation_of_a_step_selects_its_output,
};
use crate::plan_nodes::{
    fetches, referred, without_defer, FetchNode, FlattenNodePath, FlattenNodePathSegment, PlanNode,
    QueryPlan,
};

verus! {

/// The operation for the entities of a step, whatever the step needs as input, asks for the output
/// of the step, and declares the representations before what the step declares.
pub proof fn entity_operations_select_the_output(
    step: &FetchStepData,
    operation: OperationDefinition,
)
    requires
        call_ensures(entities_operation_definition, (step,), operation),
    ensures
        operation@.name is None,
        operation@.operation_kind == Some(OperationKind::Query),
        asks_for_entities(operation@, step.output.on_type@, step.output.selection_set@),
        operation@.variable_definitions is Some,
        declares_representations(operation@.variable_definitions->Some_0[0]),
        step.variable_definitions is None ==> operation@.variable_definitions->Some_0.len() == 1,
        step.variable_definitions matches Some(definitions) ==> {
            &&& operation@.variable_definitions->Some_0.len() == 1 + definitions@.len()
            &&& forall|k: int|
                0 <= k < definitions@.len() ==> operation@.variable_definitions->Some_0[k + 1] == (
                #[trigger] definitions@[k])@
        },
{
    entities_are_asked_for_the_output(*step);
}

/// Steps that differ only in what they need as input ask for the same.
pub proof fn entity_operations_read_no_input(
    a: &FetchStepData,
    b: &FetchStepData,
    of_a: OperationDefinition,
    of_b: OperationDefinition,
)
    requires
        a.output == b.output,
        a.variable_definitions == b.variable_definitions,
        call_ensures(entities_operation_definition, (a,), of_a),
        call_ensures(entities_operation_definition, (b,), of_b),
    ensures
        of_a@ == of_b@,
{
}

/// The operation of a step that completes objects asks for entities; that of any other step selects
/// the output at the root, with the kind of the root type and what the step declares.
pub proof fn step_operations_select_the_output(step: &FetchStepData, operation: OperationDefinition)
    requires
        call_ensures(operation_definition, (step,), operation),
    ensures
        operation@.name is None,
        step.entity_call ==> operation@.operation_kind == Some(OperationKind::Query)
            && asks_for_entities(operation@, step.output.on_type@, step.output.selection_set@),
        !step.entity_call ==> {
            &&& operation@.selection_set == step.output.selection_set@
            &&& operation@.operation_kind == Some(OperationKind::Mutation) <==> step.output.on_type@
                == "Mutation"@
            &&& operation@.operation_kind == Some(OperationKind::Subscription)
                <==> step.output.on_type@ == "Subscription"@
            &&& operation@.operation_kind is Some
            &&& match step.variable_definitions {
                Some(definitions) => {
                    &&& operation@.variable_definitions is Some
                    &&& operation@.variable_definitions->Some_0.len() == definitions@.len()
                    &&& forall|k: int|
                        0 <= k < definitions@.len() ==> operation@.variable_definitions->Some_0[k]
                            == (#[trigger] definitions@[k])@
                },
                None => operation@.variable_definitions is None,
            }
        },
{
    the_operation_of_a_step_selects_its_output(*step);
    entities_are_asked_for_the_output(*step);
    kinds_go_by_the_root_type(step.output.on_type@);
}

/// A step is of the kind of the type of its output.
pub proof fn steps_are_of_the_kind_of_their_type(step: &FetchStepData, kind: OperationKind)
    requires
        call_ensures(<OperationKind as From<&FetchStepData>>::from, (step,), kind),
    ensures
        kind == OperationKind::Mutation <==> step.output.on_type@ == "Mutation"@,
        kind == OperationKind::Subscription <==> step.output.on_type@ == "Subscription"@,
{
    kinds_go_by_the_root_type(step.output.on_type@);
}

/// A step completes objects where it says so.
pub proof fn steps_say_whether_they_complete_objects(step: &FetchStepData, entity_call: bool)
    requires
        call_ensures(FetchStepData::is_entity_call, (step,), entity_call),
    ensures
        entity_call <==> step.entity_call,
{
}

/// What a fetch requires is one fragment on the type of the input with all that is left of it.
pub proof fn required_selections_are_on_their_type(
    input: &TypeAwareSelection,
    stripped: SelectionSet,
    set: SelectionSet,
)
    requires
        call_ensures(create_input_selection_set, (input, stripped), set),
    ensures
        set@.len() == 1,
        is_fragment(set@[0], input.on_type@, stripped@),
{
}

/// What is compiled for the entities of a step is the operation that asks for its output, with its
/// text and the hash of that text.
pub proof fn entity_operations_are_compiled<S: Supergraph>(
    step: &FetchStepData,
    supergraph: &S,
    compiled: SubgraphFetchOperation,
)
    requires
        call_ensures(create_output_operation::<S>, (step, supergraph), compiled),
    ensures
        exists|given: OperationDefinition|
            asks_for_entities(given@, step.output.on_type@, step.output.selection_set@)
                && #[trigger] call_ensures(
                S::minify_operation,
                (supergraph, given),
                compiled.document,
            ),
        call_ensures(S::document_text, (supergraph, &compiled.document), compiled.document_str),
        compiled.hash == query_hash(compiled.document_str@),
{
    let given = choose|given: OperationDefinition|
        given@ == entities_operation(*step) && #[trigger] call_ensures(
            S::minify_operation,
            (supergraph, given),
            compiled.document,
        );
    entities_are_asked_for_the_output(*step);
    assert(call_ensures(S::minify_operation, (supergraph, given), compiled.document));
}

/// The fetch of a step has the ID, the subgraph and the variables of the step, and all its
/// rewrites. It sends the output of the step. It requires something exactly where it completes
/// objects, and waits for what it is told to wait for.
pub proof fn steps_become_fetches<S: Supergraph>(
    step: &FetchStepData,
    supergraph: &S,
    depends_on: Option<Vec<i64>>,
    node: FetchNode,
    alone: FetchNode,
)
    requires
        call_ensures(
            FetchNode::from_fetch_step_with_deps::<S>,
            (step, supergraph, depends_on),
            node,
        ),
        call_ensures(FetchNode::from_fetch_step::<S>, (step, supergraph), alone),
    ensures
        node.id == step.id,
        node.service_name@ == step.service_name.0@,
        node.depends_on == depends_on,
        alone.depends_on is None,
        alone.id == step.id,
        node.requires is Some <==> step.entity_call,
        alone.requires is Some <==> step.entity_call,
        node.operation.hash == query_hash(node.operation.document_str@),
        step.entity_call ==> exists|given: OperationDefinition|
            asks_for_entities(given@, step.output.on_type@, step.output.selection_set@)
                && #[trigger] call_ensures(
                S::minify_operation,
                (supergraph, given),
                node.operation.document,
            ),
        !step.entity_call ==> exists|given: OperationDefinition|
            given@.selection_set == step.output.selection_set@ && #[trigger] call_ensures(
                S::minify_operation,
                (supergraph, given),
                node.operation.document,
            ),
        step.entity_call ==> exists|stripped: SelectionSet|
            #![trigger stripped@]
            call_ensures(
                S::strip_for_plan_input,
                (supergraph, &step.input.selection_set),
                stripped,
            ) && node.requires->Some_0@.len() == 1 && is_fragment(
                node.requires->Some_0@[0],
                step.input.on_type@,
                stripped@,
            ),
        comes_from_step(node, *step, supergraph, depends_on),
        comes_from_step(alone, *step, supergraph, None),
{
    a_fetch_sends_the_operation_of_its_step(node, *step, supergraph, depends_on);
    a_fetch_sends_the_operation_of_its_step(alone, *step, supergraph, None);
}

/// The fetch of a step whose operation is compiled holds that operation, what it is to require and
/// what it is to wait for, and the rest from the step.
pub proof fn fetches_hold_what_they_are_given(
    step: &FetchStepData,
    operation: SubgraphFetchOperation,
    requires_set: Option<SelectionSet>,
    depends_on: Option<Vec<i64>>,
    node: FetchNode,
)
    requires
        call_ensures(
            FetchNode::from_operation,
            (step, operation, requires_set, depends_on),
            node,
        ),
    ensures
        node.operation == operation,
        node.requires == requires_set,
        node.depends_on == depends_on,
        node.id == step.id,
        node.service_name@ == step.service_name.0@,
        node.operation_name is None,
        node.variable_usages is Some <==> step.variable_usages is Some,
        step.variable_usages is Some ==> node.variable_usages->Some_0@
            == step.variable_usages->Some_0@,
        step.entity_call ==> node.operation_kind == Some(OperationKind::Query),
        !step.entity_call ==> node.operation_kind == Some(kind_on_type(step.output.on_type@)),
        node.input_rewrites is Some <==> step.input_rewrites is Some,
        step.input_rewrites is Some ==> {
            &&& node.input_rewrites->Some_0@.len() == step.input_rewrites->Some_0@.len()
            &&& forall|k: int|
                0 <= k < step.input_rewrites->Some_0@.len() ==> node.input_rewrites->Some_0@[k]@
                    == (#[trigger] step.input_rewrites->Some_0@[k])@
        },
        node.output_rewrites is Some <==> step.output_rewrites is Some,
        step.output_rewrites is Some ==> {
            &&& node.output_rewrites->Some_0@.len() == step.output_rewrites->Some_0@.len()
            &&& forall|k: int|
                0 <= k < step.output_rewrites->Some_0@.len() ==> node.output_rewrites->Some_0@[k]@
                    == (#[trigger] step.output_rewrites->Some_0@[k])@
        },
{
    a_fetch_is_that_of_its_step(node, *step);
}

/// Whether a node is a fetch in its place, under the condition of the step.
pub open spec fn is_planned(plan: PlanNode, step: FetchStepData, fetch: FetchNode) -> bool {
    let path = step.response_path.inner@;
    match step.condition {
        None => stands_in_place(plan, path, fetch),
        Some(Condition::Include(variable)) => {
            &&& plan is Condition
            &&& plan->Condition_0.condition@ == variable@
            &&& plan->Condition_0.else_clause is None
            &&& plan->Condition_0.if_clause is Some
            &&& stands_in_place(*plan->Condition_0.if_clause->Some_0, path, fetch)
        },
        Some(Condition::Skip(variable)) => {
            &&& plan is Condition
            &&& plan->Condition_0.condition@ == variable@
            &&& plan->Condition_0.if_clause is None
            &&& plan->Condition_0.else_clause is Some
            &&& stands_in_place(*plan->Condition_0.else_clause->Some_0, path, fetch)
        },
    }
}

/// The node of a step whose fetch is made is that fetch in its place, under the condition of the
/// step.
pub proof fn fetches_are_planned_in_their_place(
    step: &FetchStepData,
    fetch: FetchNode,
    plan: PlanNode,
)
    requires
        call_ensures(PlanNode::from_fetch, (step, fetch), plan),
    ensures
        is_planned(plan, *step, fetch),
{
    a_step_is_planned_in_its_place(plan, *step, fetch);
}

/// The node of a step is the fetch that the step becomes, in its place, under the condition of the
/// step.
pub proof fn steps_are_planned_in_their_place<S: Supergraph>(
    step: &FetchStepData,
    supergraph: &S,
    depends_on: Option<Vec<i64>>,
    plan: PlanNode,
    alone: PlanNode,
)
    requires
        call_ensures(
            PlanNode::from_fetch_step_with_deps::<S>,
            (step, supergraph, depends_on),
            plan,
        ),
        call_ensures(PlanNode::from_fetch_step::<S>, (step, supergraph), alone),
    ensures
        exists|fetch: FetchNode|
            comes_from_step(fetch, *step, supergraph, depends_on) && #[trigger] is_planned(
                plan,
                *step,
                fetch,
            ),
        exists|fetch: FetchNode|
            comes_from_step(fetch, *step, supergraph, None) && #[trigger] is_planned(
                alone,
                *step,
                fetch,
            ),
{
    let fetch = choose|fetch: FetchNode|
        comes_from_step(fetch, *step, supergraph, depends_on) && #[trigger] plans_step(
            plan,
            *step,
            fetch,
        );
    a_step_is_planned_in_its_place(plan, *step, fetch);
    assert(is_planned(plan, *step, fetch));
    let other = choose|fetch: FetchNode|
        comes_from_step(fetch, *step, supergraph, None) && #[trigger] plans_step(
            alone,
            *step,
            fetch,
        );
    a_step_is_planned_in_its_place(alone, *step, other);
    assert(is_planned(alone, *step, other));
}

/// A flattened path has a segment for each segment of the response path, in their order.
pub proof fn flattened_paths_keep_their_segments(path: &MergePath, flat: FlattenNodePath, k: int)
    requires
        call_ensures(<FlattenNodePath as From<&MergePath>>::from, (path,), flat),
    ensures
        flat@.len() == path.inner@.len(),
        0 <= k < path.inner@.len() ==> (match path.inner@[k] {
            Segment::Field(name, _, _) => flat@[k] == FlattenNodePathSegment::Field(name),
            Segment::Cast(name, _) => flat@[k] == FlattenNodePathSegment::Cast(name),
            Segment::List => flat@[k] == FlattenNodePathSegment::List,
        }),
{
}

/// A response path is at the root exactly where it has no segments.
pub proof fn paths_without_segments_are_empty(path: &MergePath, empty: bool)
    requires
        call_ensures(MergePath::is_empty, (path,), empty),
    ensures
        empty <==> path.inner@.len() == 0,
{
}

/// The nodes of a group are its own; any other node is a group of its own.
pub proof fn groups_give_their_nodes(node: PlanNode, nodes: Vec<PlanNode>)
    requires
        call_ensures(PlanNode::into_nodes, (node,), nodes),
    ensures
        node is Sequence ==> nodes@ == node->Sequence_0.nodes@,
        node is Parallel ==> nodes@ == node->Parallel_0.nodes@,
        !(node is Sequence) && !(node is Parallel) ==> nodes@.len() == 1 && nodes@[0] == node,
{
}

/// The fetches of a plan are listed all and in their order, behind those that the list held.
pub proof fn plans_list_their_fetches<'a>(
    plan: &'a QueryPlan,
    all: Vec<&'a FetchNode>,
    node: &'a PlanNode,
    list: &mut Vec<&'a FetchNode>,
    k: int,
)
    requires
        call_ensures(QueryPlan::fetch_nodes, (plan,), all),
        call_ensures(QueryPlan::fetch_nodes_from_node, (node, list), ()),
    ensures
        all@.len() == plan.fetches().len(),
        0 <= k < all@.len() ==> *all@[k] == plan.fetches()[k],
        final(list)@.len() == old(list)@.len() + fetches(*node).len(),
        0 <= k < old(list)@.len() ==> *final(list)@[k] == *old(list)@[k],
        0 <= k < fetches(*node).len() ==> *final(list)@[old(list)@.len() + k] == fetches(*node)[k],
{
    let listed = referred(all@);
    assert(listed.len() == all@.len());
    assert(0 <= k < all@.len() ==> listed[k] == *all@[k]);
    let before = referred(old(list)@);
    let after = referred(final(list)@);
    assert(before.len() == old(list)@.len());
    assert(after.len() == final(list)@.len());
    assert(0 <= k < before.len() ==> before[k] == *old(list)@[k] && after[k] == *final(list)@[k]);
    let at = before.len() + k;
    assert(0 <= k < fetches(*node).len() ==> after[at] == *final(list)@[at]);
}

/// Whether the fetches of a node can be listed is told exactly.
pub proof fn nodes_say_whether_they_hold_deferred_plans(node: &PlanNode, listable: bool)
    requires
        call_ensures(PlanNode::is_without_defer, (node,), listable),
    ensures
        listable <==> without_defer(*node),
{
}

} // verus!
