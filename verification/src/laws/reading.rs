//! The views of the data: each tells all that its value holds.

use vstd::prelude::*;

use crate::ast::{
    definitions_view, input_value_view, opt_definitions_view, opt_text, selection_item_view,
    selection_set_view, type_node_view, ArgumentsMap, Document, FragmentDefinition, InputValue,
    InputValueView, OperationDefinition, SelectionItem, SelectionItemView, SelectionSet,
    SubgraphFetchOperation, TypeNode, TypeNodeView, VariableDefinition,
};
use crate::copies::{
    deferred_node_view, fetches_view, opt_node_view, plan_node_view, plan_nodes_view, PlanNodeView,
};
use crate::errors::{GraphQLError, GraphQLErrorExtensions, GraphQLErrorPath};
use crate::plan_nodes::{DeferDependency, DeferredNode, FetchNode, PlanNode};

verus! {

/// A text that is there or not reads as it is.
pub proof fn texts_read_as_they_are(text: String)
    ensures
        opt_text(Some(text)) == Some(text@),
        opt_text(None) is None,
{
}

/// Input values read as they are, lists and objects with all that is in them, in its order.
pub proof fn input_values_read_as_they_are(value: InputValue)
    ensures
        value@ == input_value_view(value),
        value matches InputValue::Variable(name) ==> value@ == InputValueView::Variable(name@),
        value matches InputValue::Int(number) ==> value@ == InputValueView::Int(number),
        value matches InputValue::Float(text) ==> value@ == InputValueView::Float(text@),
        value matches InputValue::String(text) ==> value@ == InputValueView::String(text@),
        value matches InputValue::Boolean(flag) ==> value@ == InputValueView::Boolean(flag),
        value is Null ==> value@ == InputValueView::Null,
        value matches InputValue::Enum(name) ==> value@ == InputValueView::Enum(name@),
        value matches InputValue::List(items) ==> {
            &&& value@ is List
            &&& value@->List_0.len() == items@.len()
            &&& forall|k: int| 0 <= k < items@.len() ==> value@->List_0[k] == (#[trigger] items@[k])@
        },
        value matches InputValue::Object(entries) ==> {
            &&& value@ is Object
            &&& value@->Object_0.len() == entries@.len()
            &&& forall|k: int|
                0 <= k < entries@.len() ==> value@->Object_0[k].0 == (#[trigger] entries@[k]).0@
                    && value@->Object_0[k].1 == entries@[k].1@
        },
{
}

/// Arguments read as they are, in their order.
pub proof fn arguments_read_as_they_are(map: ArgumentsMap, k: int)
    ensures
        map@.len() == map.arguments@.len(),
        0 <= k < map.arguments@.len() ==> map@[k].0 == map.arguments@[k].0@ && map@[k].1
            == map.arguments@[k].1@,
{
}

/// Selections read as they are, in their order.
pub proof fn selections_read_as_they_are(set: SelectionSet, k: int)
    ensures
        set@ == selection_set_view(set),
        set@.len() == set.items@.len(),
        0 <= k < set.items@.len() ==> set@[k] == set.items@[k]@,
{
}

/// Fields, fragments and spreads read as they are, with all that they hold.
pub proof fn selected_items_read_as_they_are(item: SelectionItem)
    ensures
        item@ == selection_item_view(item),
        item matches SelectionItem::Field(field) ==> {
            &&& item@ is Field
            &&& item@->Field_0.name == field.name@
            &&& item@->Field_0.selections == field.selections@
            &&& item@->Field_0.alias == opt_text(field.alias)
            &&& item@->Field_0.arguments is Some <==> field.arguments is Some
            &&& field.arguments is Some ==> item@->Field_0.arguments->Some_0
                == field.arguments->Some_0@
            &&& item@->Field_0.skip_if == opt_text(field.skip_if)
            &&& item@->Field_0.include_if == opt_text(field.include_if)
        },
        item matches SelectionItem::InlineFragment(fragment) ==> {
            &&& item@ is InlineFragment
            &&& item@->InlineFragment_0.selections == fragment.selections@
            &&& item@->InlineFragment_0.type_condition == fragment.type_condition@
            &&& item@->InlineFragment_0.skip_if == opt_text(fragment.skip_if)
            &&& item@->InlineFragment_0.include_if == opt_text(fragment.include_if)
        },
        item matches SelectionItem::FragmentSpread(name) ==> item@
            == SelectionItemView::FragmentSpread(name@),
{
}

/// Types read as they are.
pub proof fn types_read_as_they_are(node: TypeNode)
    ensures
        node@ == type_node_view(node),
        node matches TypeNode::Named(name) ==> node@ == TypeNodeView::Named(name@),
        node matches TypeNode::List(inner) ==> node@ is List && *node@->List_0 == (*inner)@,
        node matches TypeNode::NonNull(inner) ==> node@ is NonNull && *node@->NonNull_0 == (*inner)@,
{
}

/// Declared variables read as they are, in their order.
pub proof fn definitions_read_as_they_are(
    definitions: Seq<VariableDefinition>,
    list: Vec<VariableDefinition>,
    k: int,
)
    ensures
        definitions_view(definitions).len() == definitions.len(),
        0 <= k < definitions.len() ==> ({
            let view = definitions_view(definitions)[k];
            &&& view == definitions[k]@
            &&& view.name == definitions[k].name@
            &&& view.variable_type == definitions[k].variable_type@
            &&& view.default_value is Some <==> definitions[k].default_value is Some
            &&& definitions[k].default_value is Some ==> view.default_value->Some_0
                == definitions[k].default_value->Some_0@
        }),
        opt_definitions_view(Some(list)) == Some(definitions_view(list@)),
        opt_definitions_view(None) is None,
{
}

/// Operations, fragments and documents read as they are.
pub proof fn documents_read_as_they_are(
    operation: OperationDefinition,
    fragment: FragmentDefinition,
    document: Document,
    compiled: SubgraphFetchOperation,
    k: int,
)
    ensures
        operation@.name == opt_text(operation.name),
        operation@.operation_kind == operation.operation_kind,
        operation@.selection_set == operation.selection_set@,
        operation@.variable_definitions == opt_definitions_view(operation.variable_definitions),
        fragment@.name == fragment.name@,
        fragment@.type_condition == fragment.type_condition@,
        fragment@.selection_set == fragment.selection_set@,
        document@.operation == document.operation@,
        document@.fragments.len() == document.fragments@.len(),
        0 <= k < document.fragments@.len() ==> document@.fragments[k] == document.fragments@[k]@,
        compiled@.document == compiled.document@,
        compiled@.document_str == compiled.document_str@,
        compiled@.hash == compiled.hash,
{
}

/// Fetches read as they are, with all that they hold.
pub proof fn fetches_read_as_they_are(fetch: FetchNode, nodes: Seq<FetchNode>, k: int)
    ensures
        fetch@.id == fetch.id,
        fetch@.service_name == fetch.service_name@,
        fetch@.variable_usages is Some <==> fetch.variable_usages is Some,
        fetch.variable_usages is Some ==> fetch@.variable_usages->Some_0
            == fetch.variable_usages->Some_0.ordered(),
        fetch@.operation_kind == fetch.operation_kind,
        fetch@.operation_name == opt_text(fetch.operation_name),
        fetch@.operation == fetch.operation@,
        fetch@.requires_set is Some <==> fetch.requires is Some,
        fetch.requires is Some ==> fetch@.requires_set->Some_0 == fetch.requires->Some_0@,
        fetch@.input_rewrites is Some <==> fetch.input_rewrites is Some,
        fetch.input_rewrites is Some ==> {
            &&& fetch@.input_rewrites->Some_0.len() == fetch.input_rewrites->Some_0@.len()
            &&& 0 <= k < fetch.input_rewrites->Some_0@.len() ==> fetch@.input_rewrites->Some_0[k]
                == fetch.input_rewrites->Some_0@[k]@
        },
        fetch@.output_rewrites is Some <==> fetch.output_rewrites is Some,
        fetch.output_rewrites is Some ==> {
            &&& fetch@.output_rewrites->Some_0.len() == fetch.output_rewrites->Some_0@.len()
            &&& 0 <= k < fetch.output_rewrites->Some_0@.len() ==> fetch@.output_rewrites->Some_0[k]
                == fetch.output_rewrites->Some_0@[k]@
        },
        fetch@.depends_on is Some <==> fetch.depends_on is Some,
        fetch.depends_on is Some ==> fetch@.depends_on->Some_0 == fetch.depends_on->Some_0@,
        fetches_view(nodes).len() == nodes.len(),
        0 <= k < nodes.len() ==> fetches_view(nodes)[k] == nodes[k]@,
{
}

/// The nodes of a plan read as they are, with all that they hold.
pub proof fn nodes_read_as_they_are(node: PlanNode, k: int)
    ensures
        node@ == plan_node_view(node),
        node matches PlanNode::Fetch(fetch) ==> node@ == PlanNodeView::Fetch(fetch@),
        node matches PlanNode::Sequence(sequence) ==> {
            &&& node@ is Sequence
            &&& node@->Sequence_0.len() == sequence.nodes@.len()
            &&& 0 <= k < sequence.nodes@.len() ==> node@->Sequence_0[k] == sequence.nodes@[k]@
        },
        node matches PlanNode::Parallel(parallel) ==> {
            &&& node@ is Parallel
            &&& node@->Parallel_0.len() == parallel.nodes@.len()
            &&& 0 <= k < parallel.nodes@.len() ==> node@->Parallel_0[k] == parallel.nodes@[k]@
        },
        node matches PlanNode::Flatten(flatten) ==> {
            &&& node@ is Flatten
            &&& node@->path == flatten.path@
            &&& *node@->node == (*flatten.node)@
        },
        node matches PlanNode::Condition(condition) ==> {
            &&& node@ is Condition
            &&& node@->condition == condition.condition@
            &&& node@->if_clause == opt_node_view(condition.if_clause)
            &&& node@->else_clause == opt_node_view(condition.else_clause)
        },
        node matches PlanNode::Subscription(subscription) ==> {
            &&& node@ is Subscription
            &&& *node@->Subscription_0 == (*subscription.primary)@
        },
        node matches PlanNode::Defer(defer) ==> {
            &&& node@ is Defer
            &&& node@->subselection == opt_text(defer.primary.subselection)
            &&& node@->primary == opt_node_view(defer.primary.node)
            &&& node@->deferred.len() == defer.deferred@.len()
            &&& 0 <= k < defer.deferred@.len() ==> node@->deferred[k] == deferred_node_view(
                defer.deferred@[k],
            )
        },
{
    match node {
        PlanNode::Sequence(sequence) => {
            assert(node@->Sequence_0 == plan_nodes_view(sequence.nodes@));
        },
        PlanNode::Parallel(parallel) => {
            assert(node@->Parallel_0 == plan_nodes_view(parallel.nodes@));
        },
        _ => {},
    }
}

/// Clauses and deferred parts read as they are, with all that they hold.
pub proof fn parts_read_as_they_are(
    node: Box<PlanNode>,
    deferred: DeferredNode,
    dependency: DeferDependency,
    k: int,
)
    ensures
        opt_node_view(Some(node)) is Some,
        *opt_node_view(Some(node))->Some_0 == (*node)@,
        opt_node_view(None) is None,
        dependency@.id == dependency.id@,
        dependency@.defer_label == opt_text(dependency.defer_label),
        ({
            let view = deferred_node_view(deferred);
            &&& view.label == opt_text(deferred.label)
            &&& view.subselection == opt_text(deferred.subselection)
            &&& view.node == opt_node_view(deferred.node)
            &&& view.depends.len() == deferred.depends@.len()
            &&& 0 <= k < deferred.depends@.len() ==> view.depends[k] == deferred.depends@[k]@
            &&& view.query_path.len() == deferred.query_path@.len()
            &&& 0 <= k < deferred.query_path@.len() ==> view.query_path[k]
                == deferred.query_path@[k]@
        }),
{
}

/// Errors read as they are, with all that they say.
pub proof fn errors_read_as_they_are(
    error: GraphQLError,
    path: GraphQLErrorPath,
    extensions: GraphQLErrorExtensions,
)
    ensures
        error@.message == error.message@,
        error@.locations is Some <==> error.locations is Some,
        error.locations is Some ==> error@.locations->Some_0 == error.locations->Some_0@,
        error@.path is Some <==> error.path is Some,
        error.path is Some ==> error@.path->Some_0 == error.path->Some_0.segments@,
        error@.extensions == error.extensions@,
        path@ == path.segments@,
        extensions@.code == opt_text(extensions.code),
        extensions@.service_name == opt_text(extensions.service_name),
        extensions@.affected_path == opt_text(extensions.affected_path),
{
}

} // verus!
