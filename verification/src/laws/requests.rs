//! What is asked of a subgraph.

use vstd::hash_map::StringHashMap;
use vstd::prelude::*;
use vstd::utf8::{encode_utf8, encode_utf8_decode_utf8};

use crate::ast::{OperationKind, SelectionSet};
use crate::jobs::{
    forwarded, kind_text, opt_str, requesting_node, JwtAuthForwardingPlan, NodeJob,
};
use crate::names::{name_less, smaller_at, NameSet};
use crate::plan_nodes::{ConditionNode, FetchNode, FlattenNode, PlanNode};
use crate::variables::{
    chosen_clause, clause, json_bool, opt_map, opt_names, opt_node, selected_variables,
    used_variables, VariableValues,
};

verus! {

/// A variable is selected exactly where the fetch uses it and the request gives it, whatever its
/// value is, and with the value that the request gives.
pub proof fn used_variables_are_sent(
    values: Map<Seq<char>, sonic_rs::Value>,
    usages: Set<Seq<char>>,
    name: Seq<char>,
)
    ensures
        used_variables(values, usages).contains_key(name) <==> usages.contains(name)
            && values.contains_key(name),
        usages.contains(name) && values.contains_key(name) ==> *used_variables(values, usages)[name]
            == values[name],
{
}

/// Variables are selected exactly where the request gives variables and the fetch says which it
/// uses; then they are those that it uses and the request gives, each with its value.
pub proof fn a_fetch_gets_its_variables(
    values: VariableValues,
    usages: NameSet,
    name: Seq<char>,
)
    ensures
        selected_variables(None, Some(usages)) is None,
        selected_variables(Some(values), None) is None,
        selected_variables(None, None) is None,
        selected_variables(Some(values), Some(usages)) is Some,
        selected_variables(Some(values), Some(usages))->Some_0.contains_key(name)
            <==> usages@.contains(name) && values@.contains_key(name),
        usages@.contains(name) && values@.contains_key(name) ==> *selected_variables(
            Some(values),
            Some(usages),
        )->Some_0[name] == values@[name],
{
}

/// What the value of one variable is, changes nothing of the others that are sent, nor whether it
/// is sent.
pub proof fn variables_are_sent_whatever_they_hold(
    values: Map<Seq<char>, sonic_rs::Value>,
    usages: Set<Seq<char>>,
    changed: Seq<char>,
    value: sonic_rs::Value,
    name: Seq<char>,
)
    requires
        values.contains_key(changed),
    ensures
        used_variables(values.insert(changed, value), usages).contains_key(name) <==> used_variables(
            values,
            usages,
        ).contains_key(name),
        name != changed && used_variables(values, usages).contains_key(name) ==> *used_variables(
            values.insert(changed, value),
            usages,
        )[name] == *used_variables(values, usages)[name],
{
}

/// What stands for references and optional values is what they refer to.
pub proof fn references_stand_for_what_they_refer_to<V>(
    map: StringHashMap<V>,
    names: &NameSet,
    node: &PlanNode,
    name: &str,
)
    ensures
        opt_map(Some(map)) == Some(map@),
        opt_map(None::<StringHashMap<V>>) is None,
        opt_names(Some(names)) == Some(*names),
        opt_names(None) is None,
        opt_node(Some(node)) == Some(*node),
        opt_node(None) is None,
        opt_str(Some(name)) == Some(name@),
        opt_str(None) is None,
{
}

/// A condition chooses the if clause where its variable is given as true, the else clause where it
/// is given as anything else, whatever nodes the clauses are, and nothing where it is not given.
pub proof fn a_condition_chooses_by_its_variable(
    condition: ConditionNode,
    values: VariableValues,
)
    ensures
        chosen_clause(condition, None) is None,
        !values@.contains_key(condition.condition@) ==> chosen_clause(condition, Some(values)) is None,
        values@.contains_key(condition.condition@) && json_bool(values@[condition.condition@])
            == Some(true) ==> (match condition.if_clause {
            Some(node) => chosen_clause(condition, Some(values)) == Some(*node),
            None => chosen_clause(condition, Some(values)) is None,
        }),
        values@.contains_key(condition.condition@) && json_bool(values@[condition.condition@])
            != Some(true) ==> (match condition.else_clause {
            Some(node) => chosen_clause(condition, Some(values)) == Some(*node),
            None => chosen_clause(condition, Some(values)) is None,
        }),
{
}

/// The clause for a variable that is true is the if clause, that for one that is not the else
/// clause.
pub proof fn a_clause_is_taken_as_it_is(condition: ConditionNode)
    ensures
        clause(condition, true) is Some <==> condition.if_clause is Some,
        condition.if_clause is Some ==> clause(condition, true)->Some_0
            == *condition.if_clause->Some_0,
        clause(condition, false) is Some <==> condition.else_clause is Some,
        condition.else_clause is Some ==> clause(condition, false)->Some_0
            == *condition.else_clause->Some_0,
{
}

/// A fetch and a flattened fetch are requested whatever the variables are; a condition is requested
/// as the clause that it chooses; nothing else is requested.
pub proof fn nodes_are_requested_as_they_are(
    node: PlanNode,
    variable_values: Option<VariableValues>,
)
    ensures
        node is Fetch || node is Flatten ==> requesting_node(node, variable_values) == Some(node),
        node is Condition ==> requesting_node(node, variable_values) == (match chosen_clause(
            node->Condition_0,
            variable_values,
        ) {
            Some(clause) => requesting_node(clause, variable_values),
            None => None,
        }),
        node is Sequence || node is Parallel || node is Subscription || node is Defer
            ==> requesting_node(node, variable_values) is None,
{
    if node is Condition {
        if let Some(clause) = chosen_clause(node->Condition_0, variable_values) {
            reveal_with_fuel(requesting_node, 2);
        }
    }
}

/// The request of a job is that of its node.
pub proof fn a_job_requests_its_node(fetch: &FetchNode, flatten: &FlattenNode)
    ensures
        NodeJob::Fetch(fetch).node() == PlanNode::Fetch(*fetch),
        NodeJob::Flatten(flatten).node() == PlanNode::Flatten(*flatten),
{
}

/// A flattened node asks for entities exactly where it holds a fetch that requires something, and
/// then by that fetch and with all that it requires.
pub proof fn a_flattened_fetch_asks_by_what_it_requires(
    flatten: FlattenNode,
    fetch: FetchNode,
    required: SelectionSet,
)
    ensures
        flatten.entity_fetch() == Some((fetch, required)) <==> *flatten.node == PlanNode::Fetch(fetch)
            && fetch.requires == Some(required),
        flatten.entity_fetch() is None <==> !(*flatten.node is Fetch
            && flatten.node->Fetch_0.requires is Some),
{
}

/// A request carries the forwarded claims under their name, and no other extensions.
pub proof fn claims_are_forwarded(plan: JwtAuthForwardingPlan, name: Seq<char>)
    ensures
        forwarded(None) is None,
        forwarded(Some(plan)) is Some,
        forwarded(Some(plan))->Some_0.contains_key(name) <==> name == plan.extension_field_name@,
        *forwarded(Some(plan))->Some_0[plan.extension_field_name@] == plan.extension_field_value,
{
}

/// Kinds are told apart by their texts; an operation without a kind reads as a query.
pub proof fn kinds_read_as_they_are()
    ensures
        kind_text(Some(OperationKind::Query)) == "query"@,
        kind_text(Some(OperationKind::Mutation)) == "mutation"@,
        kind_text(Some(OperationKind::Subscription)) == "subscription"@,
        kind_text(None) == kind_text(Some(OperationKind::Query)),
{
}

/// Names are ordered by their bytes: a name comes before another one exactly where, at the first
/// byte in which they differ, its byte is smaller or it has ended.
pub proof fn names_are_ordered_by_their_bytes(a: Seq<char>, b: Seq<char>)
    ensures
        name_less(a, b) <==> exists|k: int|
            0 <= k <= encode_utf8(a).len() && k < encode_utf8(b).len() && (forall|i: int|
                0 <= i < k ==> encode_utf8(a)[i] == encode_utf8(b)[i]) && (#[trigger] first_ends(
                a,
                k,
            ) || encode_utf8(a)[k] < encode_utf8(b)[k]),
{
    let (x, y) = (encode_utf8(a), encode_utf8(b));
    if name_less(a, b) {
        let k = choose|k: int| smaller_at(x, y, k);
        assert(first_ends(a, k) || x[k] < y[k]);
    }
    if exists|k: int|
        0 <= k <= x.len() && k < y.len() && (forall|i: int| 0 <= i < k ==> x[i] == y[i]) && (
        #[trigger] first_ends(a, k) || x[k] < y[k]) {
        let k = choose|k: int|
            0 <= k <= x.len() && k < y.len() && (forall|i: int| 0 <= i < k ==> x[i] == y[i]) && (
            #[trigger] first_ends(a, k) || x[k] < y[k]);
        assert(smaller_at(x, y, k));
    }
}

/// Whether a name has just `k` bytes.
pub open spec fn first_ends(a: Seq<char>, k: int) -> bool {
    k == encode_utf8(a).len()
}

/// Of two different names one comes before the other one.
pub proof fn different_names_are_ordered(a: Seq<char>, b: Seq<char>)
    requires
        a != b,
    ensures
        name_less(a, b) || name_less(b, a),
{
    let (x, y) = (encode_utf8(a), encode_utf8(b));
    let k = lemma_first_difference(x, y, 0);
    if k < x.len() && k < y.len() {
        assert(smaller_at(x, y, k) || smaller_at(y, x, k));
    } else if k < y.len() {
        assert(smaller_at(x, y, k));
    } else if k < x.len() {
        assert(smaller_at(y, x, k));
    } else {
        assert(x =~= y);
        encode_utf8_decode_utf8(a);
        encode_utf8_decode_utf8(b);
    }
}

proof fn lemma_first_difference(x: Seq<u8>, y: Seq<u8>, from: int) -> (k: int)
    requires
        0 <= from <= x.len(),
        from <= y.len(),
        forall|i: int| 0 <= i < from ==> x[i] == y[i],
    ensures
        from <= k <= x.len(),
        k <= y.len(),
        forall|i: int| 0 <= i < k ==> x[i] == y[i],
        k < x.len() && k < y.len() ==> x[k] != y[k],
    decreases x.len() - from,
{
    if from < x.len() && from < y.len() && x[from] == y[from] {
        lemma_first_difference(x, y, from + 1)
    } else {
        from
    }
}

} // verus!
