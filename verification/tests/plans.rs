use query_plan::ast::{
    Condition, Document, MergePath, OperationDefinition, Segment, SelectionItem, SelectionSet,
    SubgraphFetchOperation,
};
use query_plan::context::OutputRewritesStorage;
use query_plan::plan_nodes::{
    ConditionNode, DeferDependency, DeferNode, DeferPrimary, DeferredNode, FetchNode,
    FetchNodePathSegment, FetchRewrite,
    FlattenNode, FlattenNodePath, FlattenNodePathSegment, KeyRenamer, ParallelNode, PlanNode,
    QueryPlan, SequenceNode, SubscriptionNode, ValueSetter,
};
use query_plan::pretty::{get_indent, Piece};

fn fetch_node(id: i64) -> FetchNode {
    FetchNode {
        id,
        service_name: format!("service_{}", id),
        variable_usages: None,
        operation_kind: None,
        operation_name: None,
        operation: SubgraphFetchOperation {
            document: Document {
                operation: OperationDefinition {
                    name: None,
                    operation_kind: None,
                    selection_set: SelectionSet { items: vec![] },
                    variable_definitions: None,
                },
                fragments: vec![],
            },
            document_str: format!("{{ field_{} }}", id),
            hash: 0,
        },
        requires: None,
        input_rewrites: None,
        output_rewrites: None,
        depends_on: None,
    }
}

fn fetch(id: i64) -> PlanNode {
    PlanNode::Fetch(fetch_node(id))
}

fn sequence(nodes: Vec<PlanNode>) -> PlanNode {
    PlanNode::Sequence(SequenceNode { nodes })
}

fn parallel(nodes: Vec<PlanNode>) -> PlanNode {
    PlanNode::Parallel(ParallelNode { nodes })
}

fn flatten(segments: Vec<FlattenNodePathSegment>, node: PlanNode) -> PlanNode {
    PlanNode::Flatten(FlattenNode { path: FlattenNodePath::new(segments), node: Box::new(node) })
}

fn field(name: &str) -> FlattenNodePathSegment {
    FlattenNodePathSegment::Field(name.to_string())
}

fn cast(name: &str) -> FlattenNodePathSegment {
    FlattenNodePathSegment::Cast(name.to_string())
}

fn plan(node: Option<PlanNode>) -> QueryPlan {
    QueryPlan { kind: "QueryPlan".to_string(), node }
}

fn ids(plan: &QueryPlan) -> Vec<i64> {
    plan.fetch_nodes().iter().map(|node| node.id).collect()
}

/// Writes pieces: a selection set as the number of its items, an operation as its text.
fn written(pieces: &[Piece]) -> String {
    let mut text = String::new();
    for piece in pieces {
        match piece {
            Piece::Text(line) => text.push_str(line),
            Piece::Selections(set, depth) => {
                text.push_str(&format!("<{} items at {}>\n", set.items.len(), depth))
            }
            Piece::Operation(operation, depth) => {
                text.push_str(&format!("<{} at {}>\n", operation.document_str, depth))
            }
        }
    }
    text
}

fn shown(plan: &QueryPlan, depth: usize) -> String {
    let mut pieces = Vec::new();
    plan.pretty_fmt(&mut pieces, depth);
    written(&pieces)
}

#[test]
fn fetches_come_in_the_order_of_the_plan() {
    let plan = plan(Some(sequence(vec![
        fetch(1),
        parallel(vec![fetch(2), flatten(vec![field("a")], fetch(3))]),
        PlanNode::Subscription(SubscriptionNode { primary: Box::new(fetch(4)) }),
    ])));
    assert_eq!(ids(&plan), vec![1, 2, 3, 4]);
}

#[test]
fn fetches_of_the_else_clause_come_first() {
    let plan = plan(Some(PlanNode::Condition(ConditionNode {
        condition: "flag".to_string(),
        if_clause: Some(Box::new(fetch(1))),
        else_clause: Some(Box::new(fetch(2))),
    })));
    assert_eq!(ids(&plan), vec![2, 1]);
}

#[test]
fn an_empty_plan_has_no_fetches() {
    assert!(ids(&plan(None)).is_empty());
    assert!(ids(&plan(Some(sequence(vec![])))).is_empty());
}

#[test]
fn fetches_are_added_to_a_list() {
    let first = fetch_node(9);
    let node = sequence(vec![fetch(1), fetch(2)]);
    let mut list = vec![&first];
    QueryPlan::fetch_nodes_from_node(&node, &mut list);
    let ids: Vec<i64> = list.iter().map(|node| node.id).collect();
    assert_eq!(ids, vec![9, 1, 2]);
}

#[test]
fn groups_are_taken_apart() {
    assert_eq!(sequence(vec![fetch(1), fetch(2)]).into_nodes().len(), 2);
    assert_eq!(parallel(vec![fetch(1), fetch(2), fetch(3)]).into_nodes().len(), 3);
    assert!(sequence(vec![]).into_nodes().is_empty());

    let nodes = fetch(7).into_nodes();
    assert_eq!(nodes.len(), 1);
    assert!(matches!(&nodes[0], PlanNode::Fetch(node) if node.id == 7));

    let defer = PlanNode::Defer(DeferNode {
        primary: DeferPrimary { subselection: None, node: None },
        deferred: vec![],
    });
    assert!(matches!(defer.into_nodes()[0], PlanNode::Defer(_)));
}

#[test]
fn taking_a_group_apart_keeps_its_fetches() {
    let whole = || parallel(vec![fetch(1), sequence(vec![fetch(2), fetch(3)]), fetch(4)]);
    let mut apart = Vec::new();
    for node in whole().into_nodes() {
        apart.extend(ids(&plan(Some(node))));
    }
    assert_eq!(apart, ids(&plan(Some(whole()))));
    assert_eq!(apart, vec![1, 2, 3, 4]);
}

#[test]
fn only_a_field_has_a_field_name() {
    assert_eq!(field("name").to_field(), Some(&"name".to_string()));
    assert_eq!(cast("User").to_field(), None);
    assert_eq!(FlattenNodePathSegment::List.to_field(), None);
}

#[test]
fn segments_are_written() {
    assert_eq!(field("name").text(), "name");
    assert_eq!(cast("User").text(), "|[User]");
    assert_eq!(FlattenNodePathSegment::List.text(), "@");
}

#[test]
fn paths_are_written() {
    let path = FlattenNodePath::new(vec![
        field("users"),
        FlattenNodePathSegment::List,
        cast("Admin"),
        field("friend"),
    ]);
    assert_eq!(path.text(), "users.@|[Admin].friend");
    assert_eq!(FlattenNodePath::new(vec![]).text(), "");
    assert_eq!(FlattenNodePath::new(vec![cast("A"), cast("B")]).text(), "|[A]|[B]");
    assert_eq!(path.clone(), path);
}

fn merge_path() -> MergePath {
    MergePath {
        inner: vec![
            Segment::Field("users".to_string(), 11, None),
            Segment::List,
            Segment::Cast("Admin".to_string(), Some(Condition::Skip("s".to_string()))),
            Segment::Field("friend".to_string(), 0, Some(Condition::Include("i".to_string()))),
        ],
    }
}

#[test]
fn merge_paths_become_rewrite_paths() {
    let path: Vec<FetchNodePathSegment> = (&merge_path()).into();
    assert_eq!(
        path,
        vec![
            FetchNodePathSegment::Key("users".to_string()),
            FetchNodePathSegment::TypenameEquals("Admin".to_string()),
            FetchNodePathSegment::Key("friend".to_string()),
        ]
    );
}

#[test]
fn merge_paths_become_flatten_paths() {
    let expected =
        [field("users"), FlattenNodePathSegment::List, cast("Admin"), field("friend")];
    let borrowed: FlattenNodePath = (&merge_path()).into();
    assert_eq!(borrowed.as_slice(), expected);
    let owned: FlattenNodePath = merge_path().into();
    assert_eq!(owned.as_slice(), expected);
}

#[test]
fn an_empty_merge_path_stays_at_the_root() {
    assert!(MergePath { inner: vec![] }.is_empty());
    assert!(!merge_path().is_empty());
}

#[test]
fn output_rewrites_are_found_by_fetch() {
    let setter = FetchRewrite::ValueSetter(ValueSetter {
        path: vec![FetchNodePathSegment::Key("a".to_string())],
        set_value_to: "b".to_string(),
    });
    let renamer = FetchRewrite::KeyRenamer(KeyRenamer {
        path: vec![FetchNodePathSegment::TypenameEquals("T".to_string())],
        rename_key_to: "c".to_string(),
    });
    let mut first = fetch_node(1);
    first.output_rewrites = Some(vec![setter.clone(), renamer.clone()]);
    let mut second = fetch_node(2);
    second.input_rewrites = Some(vec![setter.clone()]);
    let mut third = fetch_node(3);
    third.output_rewrites = Some(vec![]);
    let plan = plan(Some(parallel(vec![
        PlanNode::Fetch(first),
        PlanNode::Fetch(second),
        PlanNode::Fetch(third),
    ])));

    let storage = OutputRewritesStorage::from_query_plan(&plan);

    assert_eq!(storage.get(1), Some(&[setter, renamer][..]));
    assert_eq!(storage.get(2), None);
    assert_eq!(storage.get(3), Some(&[][..]));
    assert_eq!(storage.get(4), None);
    assert_eq!(OutputRewritesStorage::new().get(1), None);
}

#[test]
fn of_two_fetches_with_one_id_the_later_one_has_its_rewrites_kept() {
    let rewrite = |to: &str| {
        FetchRewrite::ValueSetter(ValueSetter { path: vec![], set_value_to: to.to_string() })
    };
    let mut first = fetch_node(1);
    first.output_rewrites = Some(vec![rewrite("first")]);
    let mut second = fetch_node(1);
    second.output_rewrites = Some(vec![rewrite("second")]);
    let third = fetch_node(1);
    let plan = plan(Some(sequence(vec![
        PlanNode::Fetch(first),
        PlanNode::Fetch(second),
        PlanNode::Fetch(third),
    ])));
    let storage = OutputRewritesStorage::from_query_plan(&plan);
    assert_eq!(storage.get(1), Some(&[rewrite("second")][..]));
}

#[test]
fn two_blanks_for_each_depth() {
    assert_eq!(get_indent(0), "");
    assert_eq!(get_indent(1), "  ");
    assert_eq!(get_indent(3), "      ");
}

#[test]
fn an_empty_plan_is_shown() {
    assert_eq!(shown(&plan(None), 0), "QueryPlan {\n  None,\n},\n");
    assert_eq!(shown(&plan(None), 1), "  QueryPlan {\n    None,\n  },\n");
}

#[test]
fn a_plan_is_shown() {
    let mut entity_fetch = fetch_node(2);
    entity_fetch.requires = Some(SelectionSet {
        items: vec![SelectionItem::FragmentSpread("a".to_string())],
    });
    let plan = plan(Some(sequence(vec![
        fetch(1),
        parallel(vec![
            flatten(
                vec![field("users"), FlattenNodePathSegment::List, cast("Admin")],
                PlanNode::Fetch(entity_fetch),
            ),
            PlanNode::Condition(ConditionNode {
                condition: "a".to_string(),
                if_clause: Some(Box::new(fetch(3))),
                else_clause: None,
            }),
            PlanNode::Condition(ConditionNode {
                condition: "b".to_string(),
                if_clause: None,
                else_clause: Some(Box::new(fetch(4))),
            }),
        ]),
        PlanNode::Subscription(SubscriptionNode { primary: Box::new(fetch(5)) }),
    ])));
    let expected = [
        "QueryPlan {",
        "  Sequence {",
        "    Fetch(service: \"service_1\") {",
        "<{ field_1 } at 2>",
        "    },",
        "    Parallel {",
        "      Flatten(path: \"users.@|[Admin]\") {",
        "        Fetch(service: \"service_2\") {",
        "          {",
        "<1 items at 6>",
        "          } =>",
        "<{ field_2 } at 4>",
        "        },",
        "      },",
        "      Include(if: $a) {",
        "        Fetch(service: \"service_3\") {",
        "<{ field_3 } at 4>",
        "        },",
        "      },",
        "      Skip(if: $b) {",
        "        Fetch(service: \"service_4\") {",
        "<{ field_4 } at 4>",
        "        },",
        "      },",
        "    },",
        "  },",
        "},",
        "",
    ];
    assert_eq!(shown(&plan, 0), expected.join("\n"));
}

#[test]
fn every_fetch_of_a_plan_is_shown() {
    let node = parallel(vec![sequence(vec![fetch(1), fetch(2)]), fetch(3)]);
    let mut pieces = Vec::new();
    node.pretty_fmt(&mut pieces, 0);
    let operations: Vec<&str> = pieces
        .iter()
        .filter_map(|piece| match piece {
            Piece::Operation(operation, _) => Some(operation.document_str.as_str()),
            _ => None,
        })
        .collect();
    assert_eq!(operations, vec!["{ field_1 }", "{ field_2 }", "{ field_3 }"]);
}

fn both_clauses() -> PlanNode {
    PlanNode::Condition(ConditionNode {
        condition: "flag".to_string(),
        if_clause: Some(Box::new(fetch(1))),
        else_clause: Some(Box::new(fetch(2))),
    })
}

fn deferred() -> PlanNode {
    PlanNode::Defer(DeferNode {
        primary: DeferPrimary {
            subselection: Some("{ a }".to_string()),
            node: Some(Box::new(fetch(1))),
        },
        deferred: vec![DeferredNode {
            depends: vec![DeferDependency { id: "0".to_string(), defer_label: None }],
            label: Some("label".to_string()),
            query_path: vec!["a".to_string(), "b".to_string()],
            subselection: None,
            node: Some(Box::new(fetch(2))),
        }],
    })
}

#[test]
fn deferred_plans_are_told_apart() {
    assert!(fetch(1).is_without_defer());
    assert!(both_clauses().is_without_defer());
    assert!(sequence(vec![fetch(1), flatten(vec![], fetch(2))]).is_without_defer());
    assert!(!deferred().is_without_defer());
    assert!(!parallel(vec![fetch(1), sequence(vec![deferred()])]).is_without_defer());
    assert!(!PlanNode::Subscription(SubscriptionNode { primary: Box::new(deferred()) })
        .is_without_defer());
    let condition = PlanNode::Condition(ConditionNode {
        condition: "flag".to_string(),
        if_clause: Some(Box::new(fetch(1))),
        else_clause: Some(Box::new(deferred())),
    });
    assert!(!condition.is_without_defer());
}

#[test]
fn conditions_with_one_clause_can_be_shown() {
    assert!(fetch(1).is_printable(0));
    assert!(deferred().is_printable(0));
    assert!(!both_clauses().is_printable(0));
    assert!(!sequence(vec![fetch(1), parallel(vec![both_clauses()])]).is_printable(0));
    assert!(!flatten(vec![], both_clauses()).is_printable(3));
    let neither = PlanNode::Condition(ConditionNode {
        condition: "flag".to_string(),
        if_clause: None,
        else_clause: None,
    });
    assert!(!neither.is_printable(0));
    let skipped = PlanNode::Condition(ConditionNode {
        condition: "flag".to_string(),
        if_clause: None,
        else_clause: Some(Box::new(fetch(1))),
    });
    assert!(skipped.is_printable(0));
    assert!(!fetch(1).is_printable(usize::MAX - 1));
}

#[test]
fn copies_are_equal() {
    let mut rich = fetch_node(5);
    rich.depends_on = Some(vec![1, 2]);
    rich.requires =
        Some(SelectionSet { items: vec![SelectionItem::FragmentSpread("a".to_string())] });
    rich.output_rewrites = Some(vec![FetchRewrite::ValueSetter(ValueSetter {
        path: vec![FetchNodePathSegment::Key("k".to_string())],
        set_value_to: "v".to_string(),
    })]);
    let plan = plan(Some(sequence(vec![
        fetch(1),
        parallel(vec![flatten(vec![field("a"), cast("B")], PlanNode::Fetch(rich)), both_clauses()]),
        PlanNode::Subscription(SubscriptionNode { primary: Box::new(fetch(9)) }),
        deferred(),
    ])));
    assert_eq!(format!("{:?}", plan.clone()), format!("{:?}", plan));
}
