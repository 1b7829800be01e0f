use query_plan::ast::{
    Condition, Document, InputValue, MergePath, OperationDefinition, OperationKind, Segment,
    SelectionItem, SelectionSet, TypeAwareSelection, TypeNode, VariableDefinition,
};
use query_plan::fetch_step::{
    create_input_selection_set, create_output_operation, entities_operation_definition,
    operation_definition, FetchStepData, Supergraph, SubgraphName,
};
use query_plan::names::NameSet;
use query_plan::plan_nodes::{
    FetchNode, FetchNodePathSegment, FetchRewrite, KeyRenamer, PlanNode, QueryPlan, ValueSetter,
};
use xxhash_rust::xxh3::xxh3_64;

/// A supergraph that writes a document as its kind, its variables and the names of its root
/// fields, and leaves of an input its first item.
struct Graph;

impl Supergraph for Graph {
    fn minify_operation(&self, operation: OperationDefinition) -> Document {
        Document { operation, fragments: vec![] }
    }

    fn document_text(&self, document: &Document) -> String {
        let mut text = format!("{:?}", document.operation.operation_kind.unwrap());
        if let Some(definitions) = &document.operation.variable_definitions {
            for definition in definitions {
                text.push_str(&format!(" ${}: {}", definition.name, written(&definition.variable_type)));
            }
        }
        for name in field_names(&document.operation.selection_set) {
            text.push_str(&format!(" {}", name));
        }
        text
    }

    fn strip_for_plan_input(&self, selections: &SelectionSet) -> SelectionSet {
        SelectionSet { items: vec![selections.items[0].clone()] }
    }
}

fn written(node: &TypeNode) -> String {
    match node {
        TypeNode::Named(name) => name.clone(),
        TypeNode::List(inner) => format!("[{}]", written(inner)),
        TypeNode::NonNull(inner) => format!("{}!", written(inner)),
    }
}

fn field_names(set: &SelectionSet) -> Vec<String> {
    set.items
        .iter()
        .map(|item| match item {
            SelectionItem::Field(field) => field.name.clone(),
            SelectionItem::InlineFragment(fragment) => format!("... on {}", fragment.type_condition),
            SelectionItem::FragmentSpread(name) => format!("...{}", name),
        })
        .collect()
}

fn spread(name: &str) -> SelectionItem {
    SelectionItem::FragmentSpread(name.to_string())
}

fn selection(on_type: &str, names: &[&str]) -> TypeAwareSelection {
    TypeAwareSelection {
        on_type: on_type.to_string(),
        selection_set: SelectionSet { items: names.iter().map(|name| spread(name)).collect() },
    }
}

fn root_step(on_type: &str) -> FetchStepData {
    FetchStepData {
        id: 5,
        service_name: SubgraphName("products".to_string()),
        response_path: MergePath { inner: vec![] },
        input: selection(on_type, &[]),
        output: selection(on_type, &["a", "b"]),
        entity_call: false,
        condition: None,
        variable_usages: None,
        variable_definitions: None,
        input_rewrites: None,
        output_rewrites: None,
    }
}

fn entity_step() -> FetchStepData {
    let mut usages = NameSet::new();
    usages.insert("limit".to_string());
    FetchStepData {
        id: 6,
        service_name: SubgraphName("reviews".to_string()),
        response_path: MergePath {
            inner: vec![Segment::Field("users".to_string(), 0, None), Segment::List],
        },
        input: selection("User", &["key", "rest"]),
        output: selection("User", &["reviews"]),
        entity_call: true,
        condition: None,
        variable_usages: Some(usages),
        variable_definitions: Some(vec![VariableDefinition {
            name: "limit".to_string(),
            variable_type: TypeNode::Named("Int".to_string()),
            default_value: Some(InputValue::Int(3)),
        }]),
        input_rewrites: Some(vec![FetchRewrite::ValueSetter(ValueSetter {
            path: vec![FetchNodePathSegment::Key("__typename".to_string())],
            set_value_to: "User".to_string(),
        })]),
        output_rewrites: Some(vec![FetchRewrite::KeyRenamer(KeyRenamer {
            path: vec![FetchNodePathSegment::Key("x".to_string())],
            rename_key_to: "y".to_string(),
        })]),
    }
}

/// The hash of a text: its bytes, then the byte that ends a string.
fn hash_of(text: &str) -> u64 {
    let mut bytes = text.as_bytes().to_vec();
    bytes.push(0xff);
    xxh3_64(&bytes)
}

#[test]
fn the_output_type_gives_the_kind() {
    assert_eq!(OperationKind::from(&root_step("Query")), OperationKind::Query);
    assert_eq!(OperationKind::from(&root_step("Mutation")), OperationKind::Mutation);
    assert_eq!(OperationKind::from(&root_step("Subscription")), OperationKind::Subscription);
    assert_eq!(OperationKind::from(&root_step("User")), OperationKind::Query);
    assert_eq!(OperationKind::from(&root_step("mutation")), OperationKind::Query);
}

#[test]
fn a_root_step_becomes_a_fetch() {
    let node = FetchNode::from_fetch_step(&root_step("Mutation"), &Graph);
    assert_eq!(node.id, 5);
    assert_eq!(node.service_name, "products");
    assert!(node.variable_usages.is_none());
    assert_eq!(node.operation_kind, Some(OperationKind::Mutation));
    assert_eq!(node.operation_name, None);
    assert_eq!(node.operation.document_str, "Mutation ...a ...b");
    assert_eq!(node.operation.hash, hash_of("Mutation ...a ...b"));
    assert_eq!(field_names(&node.operation.document.operation.selection_set), ["...a", "...b"]);
    assert!(node.operation.document.operation.variable_definitions.is_none());
    assert!(node.requires.is_none());
    assert_eq!(node.input_rewrites, None);
    assert_eq!(node.output_rewrites, None);
    assert_eq!(node.depends_on, None);
}

#[test]
fn an_entity_step_becomes_a_fetch() {
    let step = entity_step();
    let node = FetchNode::from_fetch_step_with_deps(&step, &Graph, Some(vec![5, 2]));
    let text = "Query $representations: [_Any!]! $limit: Int _entities";
    assert_eq!(node.id, 6);
    assert_eq!(node.service_name, "reviews");
    assert_eq!(node.variable_usages.as_ref().unwrap().as_slice(), ["limit"]);
    assert_eq!(node.operation_kind, Some(OperationKind::Query));
    assert_eq!(node.operation.document_str, text);
    assert_eq!(node.operation.hash, hash_of(text));
    assert_eq!(node.input_rewrites, step.input_rewrites);
    assert_eq!(node.output_rewrites, step.output_rewrites);
    assert_eq!(node.depends_on, Some(vec![5, 2]));

    let requires = node.requires.unwrap();
    assert_eq!(requires.items.len(), 1);
    match &requires.items[0] {
        SelectionItem::InlineFragment(fragment) => {
            assert_eq!(fragment.type_condition, "User");
            assert_eq!(field_names(&fragment.selections), ["...key"]);
            assert!(fragment.skip_if.is_none() && fragment.include_if.is_none());
        }
        other => panic!("unexpected {:?}", other),
    }
}

#[test]
fn different_queries_have_different_hashes() {
    let query = FetchNode::from_fetch_step(&root_step("Query"), &Graph);
    let mutation = FetchNode::from_fetch_step(&root_step("Mutation"), &Graph);
    assert_ne!(query.operation.hash, mutation.operation.hash);
    let again = FetchNode::from_fetch_step(&root_step("Query"), &Graph);
    assert_eq!(query.operation.hash, again.operation.hash);
}

#[test]
fn the_entities_operation_asks_by_representations() {
    let operation = entities_operation_definition(&entity_step());
    assert_eq!(operation.name, None);
    assert_eq!(operation.operation_kind, Some(OperationKind::Query));
    let definitions = operation.variable_definitions.unwrap();
    assert_eq!(definitions.len(), 2);
    assert_eq!(definitions[0].name, "representations");
    assert_eq!(written(&definitions[0].variable_type), "[_Any!]!");
    assert!(definitions[0].default_value.is_none());
    assert_eq!(definitions[1].name, "limit");
    assert!(matches!(definitions[1].default_value, Some(InputValue::Int(3))));
    assert_eq!(operation.selection_set.items.len(), 1);
    match &operation.selection_set.items[0] {
        SelectionItem::Field(field) => {
            assert_eq!(field.name, "_entities");
            assert_eq!(field_names(&field.selections), ["... on User"]);
            assert!(field.alias.is_none());
            let arguments = &field.arguments.as_ref().unwrap().arguments;
            assert_eq!(arguments.len(), 1);
            assert_eq!(arguments[0].0, "representations");
            assert!(matches!(&arguments[0].1, InputValue::Variable(name) if name == "representations"));
        }
        other => panic!("unexpected {:?}", other),
    }
}

#[test]
fn the_operation_of_a_step_depends_on_its_place() {
    assert_eq!(field_names(&operation_definition(&entity_step()).selection_set), ["_entities"]);
    let root = operation_definition(&root_step("Subscription"));
    assert_eq!(field_names(&root.selection_set), ["...a", "...b"]);
    assert_eq!(root.operation_kind, Some(OperationKind::Subscription));
}

#[test]
fn the_output_operation_is_compiled() {
    let mut step = entity_step();
    step.variable_definitions = None;
    let operation = create_output_operation(&step, &Graph);
    assert_eq!(operation.document_str, "Query $representations: [_Any!]! _entities");
    assert_eq!(operation.hash, hash_of("Query $representations: [_Any!]! _entities"));
}

#[test]
fn the_input_selection_is_on_the_input_type() {
    let stripped = SelectionSet { items: vec![spread("left")] };
    let set = create_input_selection_set(&selection("Book", &["a"]), stripped);
    assert_eq!(field_names(&set), ["... on Book"]);
    assert!(matches!(
        &set.items[0],
        SelectionItem::InlineFragment(fragment) if field_names(&fragment.selections) == ["...left"]
    ));
}

#[test]
fn a_step_at_the_root_is_a_fetch() {
    let node = PlanNode::from_fetch_step(&root_step("Query"), &Graph);
    assert!(matches!(node, PlanNode::Fetch(fetch) if fetch.id == 5 && fetch.depends_on.is_none()));
}

#[test]
fn a_step_under_a_path_is_flattened() {
    let node = PlanNode::from_fetch_step_with_deps(&entity_step(), &Graph, Some(vec![1]));
    match node {
        PlanNode::Flatten(flatten) => {
            assert_eq!(flatten.path.text(), "users.@");
            assert!(matches!(
                *flatten.node,
                PlanNode::Fetch(fetch) if fetch.id == 6 && fetch.depends_on == Some(vec![1])
            ));
        }
        other => panic!("unexpected {:?}", other),
    }
}

#[test]
fn an_included_step_is_an_if_clause() {
    let mut step = root_step("Query");
    step.condition = Some(Condition::Include("with".to_string()));
    match PlanNode::from_fetch_step(&step, &Graph) {
        PlanNode::Condition(condition) => {
            assert_eq!(condition.condition, "with");
            assert!(matches!(*condition.if_clause.unwrap(), PlanNode::Fetch(_)));
            assert!(condition.else_clause.is_none());
        }
        other => panic!("unexpected {:?}", other),
    }
}

#[test]
fn a_skipped_step_is_an_else_clause() {
    let mut step = entity_step();
    step.condition = Some(Condition::Skip("without".to_string()));
    match PlanNode::from_fetch_step(&step, &Graph) {
        PlanNode::Condition(condition) => {
            assert_eq!(condition.condition, "without");
            assert!(condition.if_clause.is_none());
            assert!(matches!(*condition.else_clause.unwrap(), PlanNode::Flatten(_)));
        }
        other => panic!("unexpected {:?}", other),
    }
}

#[test]
fn a_step_is_one_fetch() {
    for condition in [
        None,
        Some(Condition::Skip("s".to_string())),
        Some(Condition::Include("i".to_string())),
    ] {
        let mut step = entity_step();
        step.condition = condition;
        let plan = QueryPlan {
            kind: "QueryPlan".to_string(),
            node: Some(PlanNode::from_fetch_step(&step, &Graph)),
        };
        let fetches = plan.fetch_nodes();
        assert_eq!(fetches.len(), 1);
        assert_eq!(fetches[0].id, 6);
    }
}

#[test]
fn a_step_becomes_the_same_fetch_every_time() {
    let step = entity_step();
    let first = FetchNode::from_fetch_step_with_deps(&step, &Graph, Some(vec![1]));
    let second = FetchNode::from_fetch_step_with_deps(&step, &Graph, Some(vec![1]));
    assert_eq!(format!("{:?}", first), format!("{:?}", second));
}

#[test]
fn dependencies_change_their_field_only() {
    let step = entity_step();
    let mut with = FetchNode::from_fetch_step_with_deps(&step, &Graph, Some(vec![1, 2]));
    let without = FetchNode::from_fetch_step(&step, &Graph);
    assert_eq!(with.depends_on, Some(vec![1, 2]));
    assert_eq!(without.depends_on, None);
    with.depends_on = None;
    assert_eq!(format!("{:?}", with), format!("{:?}", without));
}

#[test]
fn a_condition_wraps_the_node_of_its_step() {
    let mut step = entity_step();
    let inner = format!("{:?}", PlanNode::from_fetch_step(&step, &Graph));
    step.condition = Some(Condition::Include("i".to_string()));
    match PlanNode::from_fetch_step(&step, &Graph) {
        PlanNode::Condition(node) => {
            assert_eq!(format!("{:?}", node.if_clause.unwrap()), inner);
        }
        other => panic!("unexpected {:?}", other),
    }
    step.condition = Some(Condition::Skip("s".to_string()));
    match PlanNode::from_fetch_step(&step, &Graph) {
        PlanNode::Condition(node) => {
            assert_eq!(format!("{:?}", node.else_clause.unwrap()), inner);
        }
        other => panic!("unexpected {:?}", other),
    }
}
