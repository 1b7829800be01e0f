//! Calls that make a request.

use vstd::hash_map::StringHashMap;
use vstd::prelude::*;

use crate::ast::{OperationKind, SelectionSet};
use crate::jobs::{
    dedupes_requests, operation_kind_text, requesting_node, Executor, NodeJob,
    SubgraphExecutionRequest,
};
use crate::laws::requests::{
    a_condition_chooses_by_its_variable, nodes_are_requested_as_they_are,
};
use crate::names::{name_less, NameSet};
use crate::plan_nodes::{ConditionNode, FetchNode, FlattenNode, PlanNode};
use crate::variables::{
    chosen_clause, clause_of_condition, condition_node_by_variables, json_bool, opt_node,
    select_fetch_variables, VariableValues,
};

verus! {

/// A variable is selected exactly where the fetch uses it and the request gives it, whatever its
/// value is, and with just that value. Nothing is selected where the request gives no variables or
/// the fetch does not say which it uses.
pub proof fn selected_variables_are_those_used_and_given<'a>(
    values: &'a Option<VariableValues>,
    usages: Option<&NameSet>,
    selected: Option<StringHashMap<&'a sonic_rs::Value>>,
    name: Seq<char>,
)
    requires
        call_ensures(select_fetch_variables, (values, usages), selected),
    ensures
        selected is Some <==> *values is Some && usages is Some,
        selected is Some ==> {
            &&& selected->Some_0@.contains_key(name) <==> usages->Some_0@.contains(name)
                && (*values)->Some_0@.contains_key(name)
            &&& selected->Some_0@.contains_key(name) ==> *selected->Some_0@[name]
                == (*values)->Some_0@[name]
        },
{
}

/// A clause is the if clause where the condition is met, else the else clause.
pub proof fn clauses_are_chosen_by_the_condition<'a>(
    node: &'a ConditionNode,
    condition_met: bool,
    chosen: Option<&'a PlanNode>,
)
    requires
        call_ensures(clause_of_condition, (node, condition_met), chosen),
    ensures
        ({
            let clause = if condition_met {
                node.if_clause
            } else {
                node.else_clause
            };
            &&& chosen is Some <==> clause is Some
            &&& chosen is Some ==> *chosen->Some_0 == *clause->Some_0
        }),
{
}

/// A condition chooses its if clause where the request gives its variable as true, its else clause
/// where the request gives it as anything else, and nothing where the request does not give it.
pub proof fn clauses_are_chosen_by_the_variable<'a>(
    node: &'a ConditionNode,
    values: &'a Option<VariableValues>,
    chosen: Option<&'a PlanNode>,
)
    requires
        call_ensures(condition_node_by_variables, (node, values), chosen),
    ensures
        ({
            let given = *values is Some && (*values)->Some_0@.contains_key(node.condition@);
            let clause = if json_bool((*values)->Some_0@[node.condition@]) == Some(true) {
                node.if_clause
            } else {
                node.else_clause
            };
            &&& chosen is Some <==> given && clause is Some
            &&& chosen is Some ==> *chosen->Some_0 == *clause->Some_0
        }),
{
    if let Some(values) = *values {
        a_condition_chooses_by_its_variable(*node, values);
    }
}

/// A fetch and a flattened fetch are requested as they are. A condition is requested as the clause
/// that it chooses would be. Nothing else is requested.
pub proof fn nodes_are_requested<'a>(
    node: &'a PlanNode,
    values: &'a Option<VariableValues>,
    job: Option<NodeJob<'a>>,
    clause: Option<&'a PlanNode>,
    of_clause: Option<NodeJob<'a>>,
)
    requires
        call_ensures(NodeJob::of_node, (node, values), job),
        *node matches PlanNode::Condition(condition) ==> call_ensures(
            condition_node_by_variables,
            (&condition, values),
            clause,
        ),
        clause is Some ==> call_ensures(NodeJob::of_node, (clause->Some_0, values), of_clause),
    ensures
        *node matches PlanNode::Fetch(fetch) ==> job is Some && job->Some_0 is Fetch
            && *job->Some_0->Fetch_0 == fetch,
        *node matches PlanNode::Flatten(flatten) ==> job is Some && job->Some_0 is Flatten
            && *job->Some_0->Flatten_0 == flatten,
        *node is Condition && clause is None ==> job is None,
        *node is Condition && clause is Some ==> {
            &&& job is Some <==> of_clause is Some
            &&& job is Some ==> job->Some_0.node() == of_clause->Some_0.node()
        },
        *node is Sequence || *node is Parallel || *node is Subscription || *node is Defer
            ==> job is None,
{
    nodes_are_requested_as_they_are(*node, *values);
    if let PlanNode::Condition(condition) = *node {
        if clause is Some {
            assert(opt_node(clause) == Some(*clause->Some_0));
            assert(chosen_clause(condition, *values) == Some(*clause->Some_0));
            assert(requesting_node(*node, *values) == requesting_node(*clause->Some_0, *values));
        } else {
            assert(opt_node(clause) is None);
        }
    }
}

/// A flattened node gives its fetch and what it requires exactly where it holds a fetch that
/// requires something.
pub proof fn flattened_nodes_give_what_they_require<'a>(
    node: &'a FlattenNode,
    fetch: Option<(&'a FetchNode, &'a SelectionSet)>,
)
    requires
        call_ensures(FlattenNode::fetch_with_requires, (node,), fetch),
    ensures
        fetch is Some <==> *node.node is Fetch && node.node->Fetch_0.requires is Some,
        fetch is Some ==> *fetch->Some_0.0 == node.node->Fetch_0 && *fetch->Some_0.1
            == node.node->Fetch_0.requires->Some_0,
{
}

/// The request of a fetch sends the text of its operation under its name, the variables that it
/// uses and the request gives, the representations that it is passed, and the claims that are
/// forwarded.
pub proof fn requests_send_what_the_fetch_asks_for<'a, 'exec>(
    executor: &'a Executor<'exec>,
    node: &'a FetchNode,
    representations: Option<Vec<u8>>,
    request: SubgraphExecutionRequest<'a>,
    name: Seq<char>,
)
    requires
        call_ensures(Executor::fetch_request, (executor, node, representations), request),
    ensures
        request.query@ == node.operation.document_str@,
        request.dedupe == executor.dedupe_subgraph_requests,
        request.operation_name is Some <==> node.operation_name is Some,
        request.operation_name is Some ==> request.operation_name->Some_0@
            == node.operation_name->Some_0@,
        request.variables is Some <==> *executor.variable_values is Some
            && node.variable_usages is Some,
        request.variables is Some ==> {
            let given = (*executor.variable_values)->Some_0@;
            &&& request.variables->Some_0@.contains_key(name)
                <==> node.variable_usages->Some_0@.contains(name) && given.contains_key(name)
            &&& request.variables->Some_0@.contains_key(name) ==> *request.variables->Some_0@[name]
                == given[name]
        },
        request.representations == representations,
        request.extensions is Some <==> executor.jwt_forwarding_plan is Some,
        executor.jwt_forwarding_plan matches Some(plan) ==> {
            &&& request.extensions->Some_0@.contains_key(name) <==> name
                == plan.extension_field_name@
            &&& *request.extensions->Some_0@[plan.extension_field_name@]
                == plan.extension_field_value
        },
{
}

/// A field of the extensions is set beside the others, and nothing else of the request changes.
pub proof fn extensions_are_set_one_by_one<'a>(
    request: &mut SubgraphExecutionRequest<'a>,
    key: String,
    value: &'a sonic_rs::Value,
    name: Seq<char>,
)
    requires
        call_ensures(
            SubgraphExecutionRequest::add_request_extensions_field,
            (request, key, value),
            (),
        ),
    ensures
        final(request).extensions is Some,
        final(request).extensions->Some_0@.contains_key(key@),
        *final(request).extensions->Some_0@[key@] == *value,
        name != key@ ==> (final(request).extensions->Some_0@.contains_key(name) <==> old(
            request
        ).extensions is Some && old(request).extensions->Some_0@.contains_key(name)),
        name != key@ && final(request).extensions->Some_0@.contains_key(name) ==> *final(
            request
        ).extensions->Some_0@[name] == *old(request).extensions->Some_0@[name],
        final(request).query == old(request).query,
        final(request).dedupe == old(request).dedupe,
        final(request).operation_name == old(request).operation_name,
        final(request).variables == old(request).variables,
        final(request).representations == old(request).representations,
{
}

/// Only the requests of queries may share answers.
pub proof fn queries_may_share_answers(operation_root: &str, dedupe: bool)
    requires
        call_ensures(dedupes_requests, (operation_root,), dedupe),
    ensures
        dedupe <==> operation_root@ == "Query"@,
{
}

/// Kinds are written in small letters; an operation without a kind is a query.
pub proof fn kinds_are_written(kind: &Option<OperationKind>, text: &'static str)
    requires
        call_ensures(operation_kind_text, (kind,), text),
    ensures
        *kind == Some(OperationKind::Query) || *kind is None ==> text@ == "query"@,
        *kind == Some(OperationKind::Mutation) ==> text@ == "mutation"@,
        *kind == Some(OperationKind::Subscription) ==> text@ == "subscription"@,
{
}

/// A name is added beside the others, and it is told whether it is new.
pub proof fn names_are_added_beside_the_others(
    set: &mut NameSet,
    name: String,
    added: bool,
    other: Seq<char>,
)
    requires
        call_ensures(NameSet::insert, (set, name), added),
    ensures
        final(set)@.contains(other) <==> old(set)@.contains(other) || other == name@,
        added <==> !old(set)@.contains(name@),
{
}

/// A set starts without names.
pub proof fn sets_start_without_names(set: NameSet, name: Seq<char>)
    requires
        call_ensures(NameSet::new, (), set),
    ensures
        !set@.contains(name),
{
}

/// The names of a set are listed all and each of them once, in the order of their bytes.
pub proof fn names_are_listed_in_order(set: &NameSet, names: &[String], name: Seq<char>)
    requires
        call_ensures(NameSet::as_slice, (set,), names),
    ensures
        set@.contains(name) <==> exists|k: int|
            0 <= k < names@.len() && #[trigger] names@[k]@ == name,
        forall|i: int, j: int|
            0 <= i < j < names@.len() ==> name_less(
                #[trigger] names@[i]@,
                #[trigger] names@[j]@,
            ),
{
    let listed = names@.map_values(|name: String| name@);
    assert(listed == set.ordered());
    if set@.contains(name) {
        let k = listed.index_of(name);
        assert(names@[k]@ == name);
    }
    if exists|k: int| 0 <= k < names@.len() && #[trigger] names@[k]@ == name {
        let k = choose|k: int| 0 <= k < names@.len() && #[trigger] names@[k]@ == name;
        assert(listed[k] == name);
    }
}

} // verus!
