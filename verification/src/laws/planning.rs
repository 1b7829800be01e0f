//! What the steps of the planner become, and what the nodes of a plan hold.

use vstd::prelude::*;

use crate::ast::{
    Condition, InputValueView, OperationDefinition, OperationDefinitionView, OperationKind, Segment,
    SelectionItemView, SelectionSet, SubgraphFetchOperation, TypeNodeView, VariableDefinitionView,
};
use crate::fetch_step::{
    comes_from_step, compiles_to, entities_operation, fetches_in_place, input_selection,
    is_fetch_of, kind_on_type, plans_step, query_hash, representations_definition, root_operation,
    step_operation, FetchStepData, Supergraph,
};
use crate::paths::{flatten_segment, rewrite_path};
use crate::plan_nodes::{
    fetches, fetches_of_first, referred, rewrites_view, without_defer, FetchNode,
    FetchNodePathSegment, FetchRewrite, FlattenNodePathSegment, PlanNode, QueryPlan,
};

verus! {

/// Whether an item is a fragment on a type, with some selections and under no condition.
pub open spec fn is_fragment(
    item: SelectionItemView,
    on_type: Seq<char>,
    selections: Seq<SelectionItemView>,
) -> bool {
    &&& item is InlineFragment
    &&& item->InlineFragment_0.selections == selections
    &&& item->InlineFragment_0.type_condition == on_type
    &&& item->InlineFragment_0.skip_if is None
    &&& item->InlineFragment_0.include_if is None
}

/// Whether an operation asks for entities: it selects them, under the representations that it gets
/// in a variable, and of each of them a fragment on a type.
pub open spec fn asks_for_entities(
    operation: OperationDefinitionView,
    on_type: Seq<char>,
    selections: Seq<SelectionItemView>,
) -> bool {
    &&& operation.selection_set.len() == 1
    &&& operation.selection_set[0] is Field
    &&& {
        let field = operation.selection_set[0]->Field_0;
        &&& field.name == "_entities"@
        &&& field.alias is None
        &&& field.skip_if is None
        &&& field.include_if is None
        &&& field.arguments is Some
        &&& field.arguments->Some_0.len() == 1
        &&& field.arguments->Some_0[0].0 == "representations"@
        &&& field.arguments->Some_0[0].1 == InputValueView::Variable("representations"@)
        &&& field.selections.len() == 1
        &&& is_fragment(field.selections[0], on_type, selections)
    }
}

/// Whether a variable is declared as the list of the representations, in which nothing is null.
pub open spec fn declares_representations(definition: VariableDefinitionView) -> bool {
    &&& definition.name == "representations"@
    &&& definition.default_value is None
    &&& definition.variable_type is NonNull
    &&& *definition.variable_type->NonNull_0 is List
    &&& *definition.variable_type->NonNull_0->List_0 is NonNull
    &&& *definition.variable_type->NonNull_0->List_0->NonNull_0 == TypeNodeView::Named("_Any"@)
}

/// The operation for the entities of a step, whatever the step needs as input, selects the output
/// of the step on the type of the output. It declares the representations first and then what the
/// step declares.
pub proof fn entities_are_asked_for_the_output(step: FetchStepData)
    ensures
        ({
            let operation = entities_operation(step);
            &&& operation.name is None
            &&& operation.operation_kind == Some(OperationKind::Query)
            &&& asks_for_entities(operation, step.output.on_type@, step.output.selection_set@)
            &&& operation.variable_definitions is Some
            &&& operation.variable_definitions->Some_0.len() >= 1
            &&& declares_representations(operation.variable_definitions->Some_0[0])
            &&& match step.variable_definitions {
                Some(definitions) => {
                    &&& operation.variable_definitions->Some_0.len() == 1 + definitions@.len()
                    &&& forall|k: int|
                        0 <= k < definitions@.len() ==> operation.variable_definitions->Some_0[k
                            + 1] == (#[trigger] definitions@[k])@
                },
                None => operation.variable_definitions->Some_0.len() == 1,
            }
        }),
        declares_representations(representations_definition()),
{
}

/// What a step needs as input changes nothing of its operation.
pub proof fn the_input_changes_no_operation(a: FetchStepData, b: FetchStepData)
    requires
        a.entity_call == b.entity_call,
        a.output == b.output,
        a.variable_definitions == b.variable_definitions,
    ensures
        entities_operation(a) == entities_operation(b),
        step_operation(a) == step_operation(b),
{
}

/// The operation of a step that completes objects asks for entities. That of any other step selects
/// its output at the root, with the kind that belongs to the type of the output, and declares what
/// the step declares.
pub proof fn the_operation_of_a_step_selects_its_output(step: FetchStepData)
    ensures
        step.entity_call ==> asks_for_entities(
            step_operation(step),
            step.output.on_type@,
            step.output.selection_set@,
        ) && step_operation(step) == entities_operation(step),
        !step.entity_call ==> ({
            let operation = step_operation(step);
            &&& operation == root_operation(step)
            &&& operation.name is None
            &&& operation.selection_set == step.output.selection_set@
            &&& operation.operation_kind == Some(kind_on_type(step.output.on_type@))
            &&& match step.variable_definitions {
                Some(definitions) => {
                    &&& operation.variable_definitions is Some
                    &&& operation.variable_definitions->Some_0.len() == definitions@.len()
                    &&& forall|k: int|
                        0 <= k < definitions@.len() ==> operation.variable_definitions->Some_0[k]
                            == (#[trigger] definitions@[k])@
                },
                None => operation.variable_definitions is None,
            }
        }),
{
}

/// The kind of an operation goes by its root type; any type but those of mutations and
/// subscriptions is queried.
pub proof fn kinds_go_by_the_root_type(on_type: Seq<char>)
    ensures
        kind_on_type(on_type) == OperationKind::Mutation <==> on_type == "Mutation"@,
        kind_on_type(on_type) == OperationKind::Subscription <==> on_type == "Subscription"@,
        kind_on_type(on_type) == OperationKind::Query <==> on_type != "Mutation"@ && on_type
            != "Subscription"@,
{
    reveal_strlit("Mutation");
    reveal_strlit("Subscription");
    assert("Mutation"@.len() != "Subscription"@.len());
}

/// What a fetch requires is one fragment on the type of the objects, with all that is left of the
/// input.
pub proof fn the_input_is_required_on_its_type(
    on_type: Seq<char>,
    stripped: Seq<SelectionItemView>,
)
    ensures
        input_selection(on_type, stripped).len() == 1,
        is_fragment(input_selection(on_type, stripped)[0], on_type, stripped),
{
}

/// A compiled operation is the minified document of the operation, with the text of that document
/// and the hash of that text.
pub proof fn operations_are_compiled_as_they_read<S: Supergraph>(
    supergraph: &S,
    operation: OperationDefinitionView,
    compiled: SubgraphFetchOperation,
)
    requires
        compiles_to(supergraph, operation, compiled),
    ensures
        exists|given: OperationDefinition|
            given@ == operation && #[trigger] call_ensures(
                S::minify_operation,
                (supergraph, given),
                compiled.document,
            ),
        call_ensures(S::document_text, (supergraph, &compiled.document), compiled.document_str),
        compiled.hash == query_hash(compiled.document_str@),
{
}

/// What a fetch has from its step: its ID, its subgraph, the variables that it uses, its kind, no
/// name, and all rewrites in their order.
pub proof fn a_fetch_is_that_of_its_step(node: FetchNode, step: FetchStepData)
    requires
        is_fetch_of(node, step),
    ensures
        node.id == step.id,
        node.service_name@ == step.service_name.0@,
        node.variable_usages is Some <==> step.variable_usages is Some,
        step.variable_usages is Some ==> node.variable_usages->Some_0.ordered()
            == step.variable_usages->Some_0.ordered(),
        node.operation_name is None,
        step.entity_call ==> node.operation_kind == Some(OperationKind::Query),
        !step.entity_call ==> node.operation_kind == Some(kind_on_type(step.output.on_type@)),
        node.input_rewrites is Some <==> step.input_rewrites is Some,
        step.input_rewrites is Some ==> {
            &&& node.input_rewrites->Some_0@.len() == step.input_rewrites->Some_0@.len()
            &&& forall|k: int|
                0 <= k < step.input_rewrites->Some_0@.len() ==> node.input_rewrites->Some_0@[k]@
                    == (#[trigger] step.input_rewrites->Some_0@[k])@
        },
        node.output_rewrites is Some <==> step.output_rewrites is Some,
        step.output_rewrites is Some ==> {
            &&& node.output_rewrites->Some_0@.len() == step.output_rewrites->Some_0@.len()
            &&& forall|k: int|
                0 <= k < step.output_rewrites->Some_0@.len() ==> node.output_rewrites->Some_0@[k]@
                    == (#[trigger] step.output_rewrites->Some_0@[k])@
        },
{
    if step.input_rewrites is Some {
        lemma_like_rewrites(node.input_rewrites->Some_0@, step.input_rewrites->Some_0@);
    }
    if step.output_rewrites is Some {
        lemma_like_rewrites(node.output_rewrites->Some_0@, step.output_rewrites->Some_0@);
    }
}

proof fn lemma_like_rewrites(a: Seq<FetchRewrite>, b: Seq<FetchRewrite>)
    requires
        rewrites_view(a) == rewrites_view(b),
    ensures
        a.len() == b.len(),
        forall|k: int| 0 <= k < b.len() ==> a[k]@ == (#[trigger] b[k])@,
{
    let (x, y) = (rewrites_view(a), rewrites_view(b));
    assert(x.len() == a.len() && y.len() == b.len());
    assert forall|k: int| 0 <= k < b.len() implies a[k]@ == (#[trigger] b[k])@ by {
        assert(x[k] == a[k]@);
        assert(y[k] == b[k]@);
    }
}

/// The fetch of a step sends the compiled operation of the step and waits for what it is told to
/// wait for. Where the step completes objects, the operation asks for the output on them, and the
/// fetch requires of them what is left of the input; else it requires nothing.
pub proof fn a_fetch_sends_the_operation_of_its_step<S: Supergraph>(
    node: FetchNode,
    step: FetchStepData,
    supergraph: &S,
    depends_on: Option<Vec<i64>>,
)
    requires
        comes_from_step(node, step, supergraph, depends_on),
    ensures
        is_fetch_of(node, step),
        node.depends_on == depends_on,
        compiles_to(supergraph, step_operation(step), node.operation),
        step.entity_call ==> exists|given: OperationDefinition|
            asks_for_entities(given@, step.output.on_type@, step.output.selection_set@)
                && #[trigger] call_ensures(
                S::minify_operation,
                (supergraph, given),
                node.operation.document,
            ),
        !step.entity_call ==> exists|given: OperationDefinition|
            given@.selection_set == step.output.selection_set@ && #[trigger] call_ensures(
                S::minify_operation,
                (supergraph, given),
                node.operation.document,
            ),
        node.requires is Some <==> step.entity_call,
        step.entity_call ==> exists|stripped: SelectionSet|
            #![trigger stripped@]
            call_ensures(
                S::strip_for_plan_input,
                (supergraph, &step.input.selection_set),
                stripped,
            ) && node.requires->Some_0@.len() == 1 && is_fragment(
                node.requires->Some_0@[0],
                step.input.on_type@,
                stripped@,
            ),
{
    let given = choose|given: OperationDefinition|
        given@ == step_operation(step) && #[trigger] call_ensures(
            S::minify_operation,
            (supergraph, given),
            node.operation.document,
        );
    the_operation_of_a_step_selects_its_output(step);
    assert(call_ensures(S::minify_operation, (supergraph, given), node.operation.document));
    if step.entity_call {
        let stripped = choose|stripped: SelectionSet| #[trigger]
            call_ensures(
                S::strip_for_plan_input,
                (supergraph, &step.input.selection_set),
                stripped,
            ) && node.requires->Some_0@ == input_selection(step.input.on_type@, stripped@);
        the_input_is_required_on_its_type(step.input.on_type@, stripped@);
        assert(is_fragment(node.requires->Some_0@[0], step.input.on_type@, stripped@));
    }
}

/// The segment of a flattened path for a segment of a response path: the field, the type or the
/// list, whatever condition and arguments it has.
pub proof fn segments_keep_their_names(name: String, hash: u64, condition: Option<Condition>)
    ensures
        flatten_segment(Segment::Field(name, hash, condition)) == FlattenNodePathSegment::Field(name),
        flatten_segment(Segment::Cast(name, condition)) == FlattenNodePathSegment::Cast(name),
        flatten_segment(Segment::List) == FlattenNodePathSegment::List,
{
}

/// Whether a fetch stands in its place: as it is at the root of the response, else flattened with a
/// segment for each segment of the path, in their order.
pub open spec fn stands_in_place(plan: PlanNode, path: Seq<Segment>, fetch: FetchNode) -> bool {
    if path.len() == 0 {
        plan == PlanNode::Fetch(fetch)
    } else {
        &&& plan is Flatten
        &&& *plan->Flatten_0.node == PlanNode::Fetch(fetch)
        &&& plan->Flatten_0.path@.len() == path.len()
        &&& forall|k: int|
            0 <= k < path.len() ==> (match #[trigger] path[k] {
                Segment::Field(name, _, _) => plan->Flatten_0.path@[k]
                    == FlattenNodePathSegment::Field(name),
                Segment::Cast(name, _) => plan->Flatten_0.path@[k] == FlattenNodePathSegment::Cast(
                    name,
                ),
                Segment::List => plan->Flatten_0.path@[k] == FlattenNodePathSegment::List,
            })
    }
}

/// The node of a step is its fetch in its place. A step under a condition is the clause of a
/// condition on the same variable: the if clause where it is included by it, the else clause where
/// it is skipped by it; and there is no other clause.
pub proof fn a_step_is_planned_in_its_place(plan: PlanNode, step: FetchStepData, fetch: FetchNode)
    requires
        plans_step(plan, step, fetch),
    ensures
        step.condition is None ==> stands_in_place(plan, step.response_path.inner@, fetch),
        step.condition matches Some(Condition::Include(variable)) ==> {
            &&& plan is Condition
            &&& plan->Condition_0.condition@ == variable@
            &&& plan->Condition_0.else_clause is None
            &&& plan->Condition_0.if_clause is Some
            &&& stands_in_place(
                *plan->Condition_0.if_clause->Some_0,
                step.response_path.inner@,
                fetch,
            )
        },
        step.condition matches Some(Condition::Skip(variable)) ==> {
            &&& plan is Condition
            &&& plan->Condition_0.condition@ == variable@
            &&& plan->Condition_0.if_clause is None
            &&& plan->Condition_0.else_clause is Some
            &&& stands_in_place(
                *plan->Condition_0.else_clause->Some_0,
                step.response_path.inner@,
                fetch,
            )
        },
{
    match step.condition {
        None => lemma_in_place(plan, step, fetch),
        Some(Condition::Include(_)) => lemma_in_place(
            *plan->Condition_0.if_clause->Some_0,
            step,
            fetch,
        ),
        Some(Condition::Skip(_)) => lemma_in_place(
            *plan->Condition_0.else_clause->Some_0,
            step,
            fetch,
        ),
    }
}

proof fn lemma_in_place(plan: PlanNode, step: FetchStepData, fetch: FetchNode)
    requires
        fetches_in_place(plan, step, fetch),
    ensures
        stands_in_place(plan, step.response_path.inner@, fetch),
{
}

/// The path of a rewrite is that of the parts of the response path, one after the other.
pub proof fn paths_are_taken_part_by_part(a: Seq<Segment>, b: Seq<Segment>)
    ensures
        rewrite_path(a + b, (a + b).len() as int) == rewrite_path(a, a.len() as int) + rewrite_path(
            b,
            b.len() as int,
        ),
    decreases b.len(),
{
    let all = a + b;
    if b.len() == 0 {
        assert(all =~= a);
        assert(rewrite_path(a, a.len() as int) + Seq::<FetchNodePathSegment>::empty()
            =~= rewrite_path(a, a.len() as int));
    } else {
        let shorter = b.drop_last();
        paths_are_taken_part_by_part(a, shorter);
        lemma_path_of_a_prefix(a + shorter, all, all.len() - 1);
        lemma_path_of_a_prefix(shorter, b, b.len() - 1);
        assert(all[all.len() - 1] == b[b.len() - 1]);
        assert(rewrite_path(all, all.len() as int) =~= rewrite_path(a, a.len() as int)
            + rewrite_path(b, b.len() as int));
    }
}

proof fn lemma_path_of_a_prefix(a: Seq<Segment>, b: Seq<Segment>, n: int)
    requires
        0 <= n <= a.len() <= b.len(),
        forall|k: int| 0 <= k < a.len() ==> a[k] == b[k],
    ensures
        rewrite_path(a, n) == rewrite_path(b, n),
    decreases n,
{
    if n > 0 {
        lemma_path_of_a_prefix(a, b, n - 1);
    }
}

/// A field of a response path is a key of the path of a rewrite, a cast a type name; lists are left
/// out.
pub proof fn parts_of_paths_keep_their_names(
    name: String,
    hash: u64,
    condition: Option<Condition>,
)
    ensures
        rewrite_path(seq![Segment::Field(name, hash, condition)], 1)
            == seq![FetchNodePathSegment::Key(name)],
        rewrite_path(seq![Segment::Cast(name, condition)], 1)
            == seq![FetchNodePathSegment::TypenameEquals(name)],
        rewrite_path(seq![Segment::List], 1) == Seq::<FetchNodePathSegment>::empty(),
        rewrite_path(Seq::<Segment>::empty(), 0) == Seq::<FetchNodePathSegment>::empty(),
{
    reveal_with_fuel(rewrite_path, 2);
    assert(rewrite_path(seq![Segment::Field(name, hash, condition)], 1)
        =~= seq![FetchNodePathSegment::Key(name)]);
    assert(rewrite_path(seq![Segment::Cast(name, condition)], 1)
        =~= seq![FetchNodePathSegment::TypenameEquals(name)]);
}

/// The fetches under a node: a fetch is its own, a flattened node and a subscription have those of
/// the node in them, a condition has those of the else clause and then those of the if clause, and
/// a deferred plan has none.
pub proof fn nodes_hold_their_fetches(node: PlanNode, fetch: FetchNode)
    ensures
        fetches(PlanNode::Fetch(fetch)) == seq![fetch],
        node is Flatten ==> fetches(node) == fetches(*node->Flatten_0.node),
        node is Subscription ==> fetches(node) == fetches(*node->Subscription_0.primary),
        node is Condition ==> ({
            let condition = node->Condition_0;
            match (condition.else_clause, condition.if_clause) {
                (Some(first), Some(second)) => fetches(node) == fetches(*first) + fetches(*second),
                (Some(clause), None) | (None, Some(clause)) => fetches(node) == fetches(*clause),
                (None, None) => fetches(node).len() == 0,
            }
        }),
        node is Defer ==> fetches(node).len() == 0,
        node is Sequence ==> fetches(node) == fetches_of_first(
            node->Sequence_0.nodes@,
            node->Sequence_0.nodes@.len() as int,
        ),
        node is Parallel ==> fetches(node) == fetches_of_first(
            node->Parallel_0.nodes@,
            node->Parallel_0.nodes@.len() as int,
        ),
{
    if node is Condition {
        let condition = node->Condition_0;
        if let Some(clause) = condition.else_clause {
            assert(fetches(*clause) + Seq::<FetchNode>::empty() =~= fetches(*clause));
        }
        if let Some(clause) = condition.if_clause {
            assert(Seq::<FetchNode>::empty() + fetches(*clause) =~= fetches(*clause));
        }
    }
}

/// The fetches of a group are those of its nodes, in their order. Those of node `i` stand behind
/// those of the nodes before it.
pub proof fn groups_hold_the_fetches_of_their_nodes(
    nodes: Seq<PlanNode>,
    n: int,
    i: int,
    k: int,
)
    requires
        0 <= i < n <= nodes.len(),
        0 <= k < fetches(nodes[i]).len(),
    ensures
        fetches_of_first(nodes, 0).len() == 0,
        fetches_of_first(nodes, i + 1).len() == fetches_of_first(nodes, i).len() + fetches(
            nodes[i],
        ).len(),
        fetches_of_first(nodes, i).len() + k < fetches_of_first(nodes, n).len(),
        fetches_of_first(nodes, n)[fetches_of_first(nodes, i).len() + k] == fetches(nodes[i])[k],
    decreases n,
{
    if i < n - 1 {
        groups_hold_the_fetches_of_their_nodes(nodes, n - 1, i, k);
        assert(fetches_of_first(nodes, n) == fetches_of_first(nodes, n - 1) + fetches(nodes[n - 1]));
    }
}

/// The fetches of a plan are those of its node.
pub proof fn plans_hold_the_fetches_of_their_node(plan: QueryPlan)
    ensures
        plan.node is None ==> plan.fetches().len() == 0 && plan.without_defer(),
        plan.node is Some ==> plan.fetches() == fetches(plan.node->Some_0) && (plan.without_defer()
            <==> without_defer(plan.node->Some_0)),
{
}

/// A walk over a plan meets a deferred plan exactly where there is one, at whatever depth.
pub proof fn deferred_plans_are_met(node: PlanNode)
    ensures
        node is Fetch ==> without_defer(node),
        node is Defer ==> !without_defer(node),
        node is Flatten ==> (without_defer(node) <==> without_defer(*node->Flatten_0.node)),
        node is Subscription ==> (without_defer(node) <==> without_defer(
            *node->Subscription_0.primary,
        )),
        node is Sequence ==> (without_defer(node) <==> forall|i: int|
            0 <= i < node->Sequence_0.nodes@.len() ==> without_defer(
                #[trigger] node->Sequence_0.nodes@[i],
            )),
        node is Parallel ==> (without_defer(node) <==> forall|i: int|
            0 <= i < node->Parallel_0.nodes@.len() ==> without_defer(
                #[trigger] node->Parallel_0.nodes@[i],
            )),
        node is Condition ==> (without_defer(node) <==> (node->Condition_0.if_clause matches Some(
            clause,
        ) ==> without_defer(*clause)) && (node->Condition_0.else_clause matches Some(clause)
            ==> without_defer(*clause))),
{
}

/// References stand for what they refer to, in their order.
pub proof fn references_are_listed_in_order<T>(references: Seq<&T>, k: int)
    requires
        0 <= k < references.len(),
    ensures
        referred(references).len() == references.len(),
        referred(references)[k] == *references[k],
{
}

} // verus!
