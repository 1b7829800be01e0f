//! The variables of a request: which of them a fetch gets, and which clause of a condition they
//! choose.

use vstd::hash_map::StringHashMap;
use vstd::prelude::*;

use crate::names::NameSet;
use crate::plan_nodes::{ConditionNode, PlanNode};

verus! {

/// A JSON value. What it holds is known to the contracts through [`json_bool`] alone.
#[verifier::external_type_specification]
#[verifier::external_body]
pub struct ExJsonValue(sonic_rs::Value);

/// The variables that a request gives, by their names.
pub type VariableValues = StringHashMap<sonic_rs::Value>;

/// The boolean that a JSON value holds, where it holds one.
pub uninterp spec fn json_bool(value: sonic_rs::Value) -> Option<bool>;

/// Tells with `sonic_rs::Value::as_ref` whether a JSON value is a boolean, and which one. The
/// result depends on nothing but the value.
#[verifier::external_body]
fn as_bool(value: &sonic_rs::Value) -> (flag: Option<bool>)
    ensures
        flag == json_bool(*value),
{
    match value.as_ref() {
        sonic_rs::ValueRef::Null => None,
        sonic_rs::ValueRef::Bool(flag) => Some(flag),
        sonic_rs::ValueRef::Number(_) => None,
        sonic_rs::ValueRef::String(_) => None,
        sonic_rs::ValueRef::Array(_) => None,
        sonic_rs::ValueRef::Object(_) => None,
    }
}

/// The clause of a condition for a variable that is true, or for one that is not.
pub open spec fn clause(condition_node: ConditionNode, condition_met: bool) -> Option<PlanNode> {
    let clause = if condition_met {
        condition_node.if_clause
    } else {
        condition_node.else_clause
    };
    match clause {
        Some(node) => Some(*node),
        None => None,
    }
}

/// The node that a reference refers to, where there is one.
pub open spec fn opt_node(node: Option<&PlanNode>) -> Option<PlanNode> {
    match node {
        Some(node) => Some(*node),
        None => None,
    }
}

/// The clause that a condition chooses by the variables of a request. A variable that the request
/// does not give chooses none; a value other than `true` chooses the else clause.
pub open spec fn chosen_clause(
    condition_node: ConditionNode,
    variable_values: Option<VariableValues>,
) -> Option<PlanNode> {
    match variable_values {
        Some(values) => if values@.contains_key(condition_node.condition@) {
            clause(
                condition_node,
                json_bool(values@[condition_node.condition@]) == Some(true),
            )
        } else {
            None
        },
        None => None,
    }
}

/// The clause of a condition whose variable is known.
pub fn clause_of_condition<'a>(condition_node: &'a ConditionNode, condition_met: bool) -> (chosen:
    Option<&'a PlanNode>)
    ensures
        opt_node(chosen) == clause(*condition_node, condition_met),
{
    let chosen = if condition_met {
        &condition_node.if_clause
    } else {
        &condition_node.else_clause
    };
    match chosen {
        Some(node) => Some(node),
        None => None,
    }
}

/// The clause that a condition chooses, see [`chosen_clause`].
pub fn condition_node_by_variables<'a>(
    condition_node: &'a ConditionNode,
    variable_values: &'a Option<VariableValues>,
) -> (chosen: Option<&'a PlanNode>)
    ensures
        opt_node(chosen) == chosen_clause(*condition_node, *variable_values),
{
    let vars = match variable_values {
        Some(vars) => vars,
        None => {
            return None;
        },
    };
    match vars.get(condition_node.condition.as_str()) {
        Some(value) => {
            let condition_met = match as_bool(value) {
                Some(flag) => flag,
                None => false,
            };
            clause_of_condition(condition_node, condition_met)
        },
        None => None,
    }
}

/// The variables of a request that are used.
pub open spec fn used_variables<'a>(
    values: Map<Seq<char>, sonic_rs::Value>,
    usages: Set<Seq<char>>,
) -> Map<Seq<char>, &'a sonic_rs::Value> {
    Map::new(
        |name: Seq<char>| usages.contains(name) && values.contains_key(name),
        |name: Seq<char>| &values[name],
    )
}

/// The variables that a fetch gets: those that it uses and the request gives. Where the request
/// gives no variables, or the fetch uses none, there are none to select from.
pub open spec fn selected_variables<'a>(
    variable_values: Option<VariableValues>,
    variable_usages: Option<NameSet>,
) -> Option<Map<Seq<char>, &'a sonic_rs::Value>> {
    match (variable_values, variable_usages) {
        (Some(values), Some(usages)) => Some(used_variables(values@, usages@)),
        _ => None,
    }
}

/// The map behind a string map, where there is one.
pub open spec fn opt_map<V>(map: Option<StringHashMap<V>>) -> Option<Map<Seq<char>, V>> {
    match map {
        Some(map) => Some(map@),
        None => None,
    }
}

/// The set that a reference refers to, where there is one.
pub open spec fn opt_names(names: Option<&NameSet>) -> Option<NameSet> {
    match names {
        Some(names) => Some(*names),
        None => None,
    }
}

/// Selects the variables that a fetch gets, see [`selected_variables`].
pub fn select_fetch_variables<'a>(
    variable_values: &'a Option<VariableValues>,
    variable_usages: Option<&NameSet>,
) -> (selected: Option<StringHashMap<&'a sonic_rs::Value>>)
    ensures
        opt_map(selected) == selected_variables(*variable_values, opt_names(variable_usages)),
{
    let values = match variable_values {
        Some(values) => values,
        None => {
            return None;
        },
    };
    let usages = match variable_usages {
        Some(usages) => usages,
        None => {
            return None;
        },
    };
    let names = usages.as_slice();
    let ghost ordered = usages.ordered();
    let mut selected: StringHashMap<&'a sonic_rs::Value> = StringHashMap::new();
    assert(ordered.take(0).to_set() =~= Set::empty());
    assert(selected@ =~= used_variables(values@, ordered.take(0).to_set()));
    for i in 0..names.len()
        invariant
            names@.map_values(|name: String| name@) == ordered,
            selected@ == used_variables(values@, ordered.take(i as int).to_set()),
    {
        let name = &names[i];
        assert(name@ == ordered[i as int]);
        if let Some(value) = values.get(name.as_str()) {
            selected.insert(name.clone(), value);
        }
        proof {
            let before = ordered.take(i as int);
            let after = ordered.take(i + 1);
            assert(after =~= before.push(name@));
            assert forall|other: Seq<char>| after.to_set().contains(other) <==> (
            before.to_set().contains(other) || other == name@) by {
                if before.contains(other) {
                    assert(after[before.index_of(other)] == other);
                }
                assert(after[i as int] == name@);
                if after.contains(other) && other != name@ {
                    assert(before[after.index_of(other)] == other);
                }
            }
            assert(selected@ =~= used_variables(values@, after.to_set()));
        }
    }
    assert(ordered.take(ordered.len() as int) =~= ordered);
    Some(selected)
}

} // verus!
