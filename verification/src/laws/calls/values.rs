//! Calls that make and copy values.

use vstd::prelude::*;

use crate::ast::{
    ArgumentsMap, Condition, Document, FragmentDefinition, InputValue, MergePath,
    OperationDefinition, Segment, SelectionItem, SelectionSet, SubgraphFetchOperation, TypeNode,
    VariableDefinition,
};
use crate::errors::{
    GraphQLError, GraphQLErrorExtensions, GraphQLErrorPath, GraphQLErrorPathSegment,
};
use crate::jobs::{ExecutionJob, SubgraphResponse};
use crate::names::NameSet;
use crate::output::{initial_data, InitialData, PlanExecutionOutput};
use crate::paths::rewrite_path;
use crate::plan_nodes::{
    FetchNode, FetchNodePathSegment, FetchRewrite, FlattenNodePath, FlattenNodePathSegment,
    PlanNode, QueryPlan,
};
use crate::pretty::printable;

verus! {

/// A response starts from the answer to an introspection query, where there is one; else from no
/// data where nothing is projected, and from an object without fields where something is.
pub proof fn responses_start_from_what_is_there(
    has_introspection_query: bool,
    projects_nothing: bool,
    data: InitialData,
)
    requires
        call_ensures(initial_data, (has_introspection_query, projects_nothing), data),
    ensures
        has_introspection_query ==> data is Introspection,
        !has_introspection_query && projects_nothing ==> data is Null,
        !has_introspection_query && !projects_nothing ==> data is EmptyObject,
{
}

/// An output that starts from nothing has no bytes, no headers and no errors.
pub proof fn outputs_start_from_nothing<H>(output: PlanExecutionOutput<H>)
    requires
        call_ensures(<PlanExecutionOutput<H> as Default>::default, (), output),
    ensures
        output.body@.len() == 0,
        output.response_headers_aggregator is None,
        output.error_count == 0,
{
}

/// Extensions that start from nothing say nothing.
pub proof fn extensions_start_from_nothing(extensions: GraphQLErrorExtensions)
    requires
        call_ensures(<GraphQLErrorExtensions as Default>::default, (), extensions),
    ensures
        extensions.code is None,
        extensions.service_name is None,
        extensions.affected_path is None,
{
}

/// Arguments of one value hold just that value under its name.
pub proof fn single_arguments_hold_one_value(
    name: String,
    value: InputValue,
    arguments: ArgumentsMap,
)
    requires
        call_ensures(ArgumentsMap::single, (name, value), arguments),
    ensures
        arguments@.len() == 1,
        arguments@[0].0 == name@,
        arguments@[0].1 == value@,
{
}

/// A path holds the segments that it is made of, and gives them back.
pub proof fn paths_hold_their_segments<'a>(
    segments: Vec<FlattenNodePathSegment>,
    path: FlattenNodePath,
    of: &'a FlattenNodePath,
    given: &'a [FlattenNodePathSegment],
)
    requires
        call_ensures(FlattenNodePath::new, (segments,), path),
        *of == path,
        call_ensures(FlattenNodePath::as_slice, (of,), given),
    ensures
        given@ == segments@,
{
}

/// A segment gives the name of its field exactly where it is one.
pub proof fn segments_give_their_field<'a>(
    segment: &'a FlattenNodePathSegment,
    field: Option<&'a String>,
)
    requires
        call_ensures(FlattenNodePathSegment::to_field, (segment,), field),
    ensures
        field is Some <==> *segment is Field,
        field is Some ==> *field->Some_0 == segment->Field_0,
{
}

/// The path of a rewrite has a key for each field of the response path and a type name for each
/// cast, in their order: on a path without lists they stand where these stand. A flattened path is
/// the same from a path and from a reference to it.
pub proof fn paths_of_rewrites_follow_the_response(
    path: &MergePath,
    keys: Vec<FetchNodePathSegment>,
    owned: FlattenNodePath,
    flat: FlattenNodePath,
    k: int,
)
    requires
        call_ensures(<Vec<FetchNodePathSegment> as From<&MergePath>>::from, (path,), keys),
        call_ensures(<FlattenNodePath as From<&MergePath>>::from, (path,), flat),
        call_ensures(<FlattenNodePath as From<MergePath>>::from, (*path,), owned),
    ensures
        keys@.len() <= path.inner@.len(),
        (forall|i: int| 0 <= i < path.inner@.len() ==> !(#[trigger] path.inner@[i] is List)) && 0 <= k
            < path.inner@.len() ==> keys@.len() == path.inner@.len() && (match path.inner@[k] {
            Segment::Field(name, _, _) => keys@[k] == FetchNodePathSegment::Key(name),
            Segment::Cast(name, _) => keys@[k] == FetchNodePathSegment::TypenameEquals(name),
            Segment::List => true,
        }),
        owned@ == flat@,
{
    lemma_keys_stand_in_place(path.inner@, path.inner@.len() as int, k);
}

proof fn lemma_keys_stand_in_place(path: Seq<Segment>, n: int, k: int)
    requires
        0 <= n <= path.len(),
    ensures
        rewrite_path(path, n).len() <= n,
        (forall|i: int| 0 <= i < path.len() ==> !(#[trigger] path[i] is List)) ==> {
            &&& rewrite_path(path, n).len() == n
            &&& 0 <= k < n ==> (match path[k] {
                Segment::Field(name, _, _) => rewrite_path(path, n)[k]
                    == FetchNodePathSegment::Key(name),
                Segment::Cast(name, _) => rewrite_path(path, n)[k]
                    == FetchNodePathSegment::TypenameEquals(name),
                Segment::List => true,
            })
        },
    decreases n,
{
    if n > 0 {
        lemma_keys_stand_in_place(path, n - 1, k);
        let _ = path[n - 1] is List;
    }
}

/// Whether a node can be shown is told exactly.
pub proof fn nodes_say_whether_they_can_be_shown(node: &PlanNode, depth: usize, showable: bool)
    requires
        call_ensures(PlanNode::is_printable, (node, depth), showable),
    ensures
        showable <==> printable(*node, depth as int),
{
}

/// A job gives its answer away whole.
pub proof fn jobs_give_their_answer<'a, D, H>(
    job: ExecutionJob<'a, D, H>,
    answer: SubgraphResponse<D, H>,
)
    requires
        call_ensures(ExecutionJob::response, (job,), answer),
    ensures
        job matches ExecutionJob::Fetch { response, .. } ==> answer == response,
        job matches ExecutionJob::FlattenFetch { response, .. } ==> answer == response,
{
}

/// A copy of a node or of a fetch reads like it.
pub proof fn copies_of_nodes_read_alike(
    fetch: &FetchNode,
    fetch_copy: FetchNode,
    node: &PlanNode,
    node_copy: PlanNode,
    rewrite: &FetchRewrite,
    rewrite_copy: FetchRewrite,
    path: &FlattenNodePath,
    path_copy: FlattenNodePath,
    names: &NameSet,
    names_copy: NameSet,
)
    requires
        call_ensures(<FetchNode as Clone>::clone, (fetch,), fetch_copy),
        call_ensures(<PlanNode as Clone>::clone, (node,), node_copy),
        call_ensures(<FetchRewrite as Clone>::clone, (rewrite,), rewrite_copy),
        call_ensures(<FlattenNodePath as Clone>::clone, (path,), path_copy),
        call_ensures(<NameSet as Clone>::clone, (names,), names_copy),
    ensures
        fetch_copy@ == fetch@,
        node_copy@ == node@,
        rewrite_copy@ == rewrite@,
        path_copy@ == path@,
        names_copy@ == names@,
{
}

/// A copy of a plan reads like it.
pub proof fn copies_of_plans_read_alike(plan: &QueryPlan, copy: QueryPlan)
    requires
        call_ensures(<QueryPlan as Clone>::clone, (plan,), copy),
    ensures
        copy.kind@ == plan.kind@,
        copy.node is Some <==> plan.node is Some,
        plan.node is Some ==> copy.node->Some_0@ == plan.node->Some_0@,
{
}

/// A copy of a part of an operation reads like it.
pub proof fn copies_of_operations_read_alike(
    value: &InputValue,
    value_copy: InputValue,
    arguments: &ArgumentsMap,
    arguments_copy: ArgumentsMap,
    set: &SelectionSet,
    set_copy: SelectionSet,
    item: &SelectionItem,
    item_copy: SelectionItem,
    node: &TypeNode,
    node_copy: TypeNode,
    definition: &VariableDefinition,
    definition_copy: VariableDefinition,
    operation: &OperationDefinition,
    operation_copy: OperationDefinition,
    fragment: &FragmentDefinition,
    fragment_copy: FragmentDefinition,
    document: &Document,
    document_copy: Document,
    compiled: &SubgraphFetchOperation,
    compiled_copy: SubgraphFetchOperation,
    condition: &Condition,
    condition_copy: Condition,
)
    requires
        call_ensures(<InputValue as Clone>::clone, (value,), value_copy),
        call_ensures(<ArgumentsMap as Clone>::clone, (arguments,), arguments_copy),
        call_ensures(<SelectionSet as Clone>::clone, (set,), set_copy),
        call_ensures(<SelectionItem as Clone>::clone, (item,), item_copy),
        call_ensures(<TypeNode as Clone>::clone, (node,), node_copy),
        call_ensures(<VariableDefinition as Clone>::clone, (definition,), definition_copy),
        call_ensures(<OperationDefinition as Clone>::clone, (operation,), operation_copy),
        call_ensures(<FragmentDefinition as Clone>::clone, (fragment,), fragment_copy),
        call_ensures(<Document as Clone>::clone, (document,), document_copy),
        call_ensures(<SubgraphFetchOperation as Clone>::clone, (compiled,), compiled_copy),
        call_ensures(<Condition as Clone>::clone, (condition,), condition_copy),
    ensures
        value_copy@ == value@,
        arguments_copy@ == arguments@,
        set_copy@ == set@,
        item_copy@ == item@,
        node_copy == *node,
        definition_copy@ == definition@,
        operation_copy@ == operation@,
        fragment_copy@ == fragment@,
        document_copy@ == document@,
        compiled_copy@ == compiled@,
        condition_copy == *condition,
{
}

/// A copy of an error reads like it.
pub proof fn copies_of_errors_read_alike(
    error: &GraphQLError,
    error_copy: GraphQLError,
    path: &GraphQLErrorPath,
    path_copy: GraphQLErrorPath,
    segment: &GraphQLErrorPathSegment,
    segment_copy: GraphQLErrorPathSegment,
    extensions: &GraphQLErrorExtensions,
    extensions_copy: GraphQLErrorExtensions,
)
    requires
        call_ensures(<GraphQLError as Clone>::clone, (error,), error_copy),
        call_ensures(<GraphQLErrorPath as Clone>::clone, (path,), path_copy),
        call_ensures(<GraphQLErrorPathSegment as Clone>::clone, (segment,), segment_copy),
        call_ensures(<GraphQLErrorExtensions as Clone>::clone, (extensions,), extensions_copy),
    ensures
        error_copy@ == error@,
        path_copy.segments@ == path.segments@,
        segment_copy == *segment,
        extensions_copy@ == extensions@,
{
}

} // verus!
