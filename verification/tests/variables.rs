use query_plan::names::NameSet;
use query_plan::plan_nodes::{ConditionNode, ParallelNode, PlanNode};
use query_plan::variables::{
    clause_of_condition, condition_node_by_variables, select_fetch_variables, VariableValues,
};
use sonic_rs::Value;

fn value_from_number(n: i32) -> Value {
    sonic_rs::from_str(&n.to_string()).unwrap()
}

fn value_from_text(text: &str) -> Value {
    sonic_rs::from_str(text).unwrap()
}

/// A node that is told apart by how many nodes it holds.
fn group_of(n: usize) -> PlanNode {
    let mut nodes = Vec::new();
    for _ in 0..n {
        nodes.push(PlanNode::Parallel(ParallelNode { nodes: vec![] }));
    }
    PlanNode::Parallel(ParallelNode { nodes })
}

fn group_size(node: Option<&PlanNode>) -> Option<usize> {
    match node {
        Some(PlanNode::Parallel(parallel)) => Some(parallel.nodes.len()),
        Some(_) => panic!("not a group"),
        None => None,
    }
}

fn condition(if_clause: Option<usize>, else_clause: Option<usize>) -> ConditionNode {
    ConditionNode {
        condition: "flag".to_string(),
        if_clause: if_clause.map(|n| Box::new(group_of(n))),
        else_clause: else_clause.map(|n| Box::new(group_of(n))),
    }
}

fn variables(name: &str, text: &str) -> Option<VariableValues> {
    let mut values = VariableValues::new();
    values.insert(name.to_string(), value_from_text(text));
    Some(values)
}

#[test]
fn select_fetch_variables_only_used_variables() {
    let mut variable_values_map = VariableValues::new();
    variable_values_map.insert("used".to_string(), value_from_number(1));
    variable_values_map.insert("unused".to_string(), value_from_number(2));
    let variable_values = Some(variable_values_map);

    let mut usages = NameSet::new();
    usages.insert("used".to_string());

    let selected = select_fetch_variables(&variable_values, Some(&usages)).unwrap();

    assert_eq!(selected.len(), 1);
    assert!(selected.contains_key("used"));
    assert!(!selected.contains_key("unused"));
}

#[test]
fn select_fetch_variables_ignores_missing_usage_entries() {
    let mut variable_values_map = VariableValues::new();
    variable_values_map.insert("present".to_string(), value_from_number(3));
    let variable_values = Some(variable_values_map);

    let mut usages = NameSet::new();
    usages.insert("present".to_string());
    usages.insert("missing".to_string());

    let selected = select_fetch_variables(&variable_values, Some(&usages)).unwrap();

    assert_eq!(selected.len(), 1);
    assert!(selected.contains_key("present"));
    assert!(!selected.contains_key("missing"));
}

#[test]
fn select_fetch_variables_for_no_usage_entries() {
    let mut variable_values_map = VariableValues::new();
    variable_values_map.insert("unused_1".to_string(), value_from_number(1));
    variable_values_map.insert("unused_2".to_string(), value_from_number(2));

    let variable_values = Some(variable_values_map);

    let selected = select_fetch_variables(&variable_values, None);

    assert!(selected.is_none());
}

#[test]
fn selected_variables_keep_their_values() {
    let mut values = VariableValues::new();
    values.insert("a".to_string(), value_from_number(7));
    values.insert("b".to_string(), value_from_text("\"text\""));
    let values = Some(values);
    let mut usages = NameSet::new();
    assert!(usages.insert("b".to_string()));
    assert!(usages.insert("a".to_string()));
    assert!(!usages.insert("a".to_string()));

    let selected = select_fetch_variables(&values, Some(&usages)).unwrap();

    assert_eq!(selected.len(), 2);
    assert_eq!(**selected.get("a").unwrap(), value_from_number(7));
    assert_eq!(**selected.get("b").unwrap(), value_from_text("\"text\""));
}

#[test]
fn without_variables_none_are_selected() {
    let mut usages = NameSet::new();
    usages.insert("a".to_string());
    assert!(select_fetch_variables(&None, Some(&usages)).is_none());
    assert!(select_fetch_variables(&None, None).is_none());
}

#[test]
fn an_empty_usage_list_selects_an_empty_map() {
    let values = variables("a", "1");
    let selected = select_fetch_variables(&values, Some(&NameSet::new())).unwrap();
    assert_eq!(selected.len(), 0);
}

#[test]
fn names_are_kept_in_order() {
    let mut names = NameSet::new();
    for name in ["b", "é", "a", "ab", "b", "", "B"] {
        names.insert(name.to_string());
    }
    assert_eq!(names.as_slice(), ["", "B", "a", "ab", "b", "é"]);
    assert_eq!(names.clone().as_slice(), names.as_slice());
}

#[test]
fn true_chooses_the_if_clause() {
    let node = condition(Some(1), Some(2));
    let values = variables("flag", "true");
    assert_eq!(group_size(condition_node_by_variables(&node, &values)), Some(1));
}

#[test]
fn false_chooses_the_else_clause() {
    let node = condition(Some(1), Some(2));
    let values = variables("flag", "false");
    assert_eq!(group_size(condition_node_by_variables(&node, &values)), Some(2));
}

#[test]
fn a_value_that_is_no_boolean_chooses_the_else_clause() {
    let node = condition(Some(1), Some(2));
    for text in ["null", "1", "1.5", "\"true\"", "[true]", "{\"a\":true}"] {
        let values = variables("flag", text);
        assert_eq!(group_size(condition_node_by_variables(&node, &values)), Some(2));
    }
}

#[test]
fn a_variable_that_is_not_given_chooses_nothing() {
    let node = condition(Some(1), Some(2));
    assert_eq!(group_size(condition_node_by_variables(&node, &None)), None);
    let values = variables("other", "true");
    assert_eq!(group_size(condition_node_by_variables(&node, &values)), None);
}

#[test]
fn a_clause_may_be_missing() {
    assert_eq!(group_size(clause_of_condition(&condition(None, Some(2)), true)), None);
    assert_eq!(group_size(clause_of_condition(&condition(None, Some(2)), false)), Some(2));
    assert_eq!(group_size(clause_of_condition(&condition(Some(1), None), true)), Some(1));
    assert_eq!(group_size(clause_of_condition(&condition(Some(1), None), false)), None);
}
