use std::collections::HashMap;

use query_plan::ast::{
    Document, OperationDefinition, OperationKind, SelectionSet, SubgraphFetchOperation,
};
use query_plan::context::ExecutionContext;
use query_plan::errors::{
    GraphQLError, GraphQLErrorExtensions, GraphQLErrorPath, GraphQLErrorPathSegment,
};
use query_plan::jobs::{
    dedupes_requests, operation_kind_text, ExecutionJob, Executor, JwtAuthForwardingPlan, Merge,
    NodeJob, SubgraphExecutionRequest, SubgraphResponse,
};
use query_plan::names::NameSet;
use query_plan::output::{initial_data, InitialData, PlanExecutionOutput};
use query_plan::plan_nodes::{
    ConditionNode, FetchNode, FlattenNode, FlattenNodePath, FlattenNodePathSegment, ParallelNode,
    PlanNode, SequenceNode, SubscriptionNode,
};
use query_plan::variables::VariableValues;
use sonic_rs::Value;

fn json(text: &str) -> Value {
    sonic_rs::from_str(text).unwrap()
}

fn fetch_node(id: i64) -> FetchNode {
    FetchNode {
        id,
        service_name: "products".to_string(),
        variable_usages: None,
        operation_kind: None,
        operation_name: None,
        operation: SubgraphFetchOperation {
            document: Document {
                operation: OperationDefinition {
                    name: None,
                    operation_kind: None,
                    selection_set: SelectionSet { items: vec![] },
                    variable_definitions: None,
                },
                fragments: vec![],
            },
            document_str: "{ a }".to_string(),
            hash: 0,
        },
        requires: None,
        input_rewrites: None,
        output_rewrites: None,
        depends_on: None,
    }
}

fn path() -> FlattenNodePath {
    FlattenNodePath::new(vec![
        FlattenNodePathSegment::Field("users".to_string()),
        FlattenNodePathSegment::List,
    ])
}

fn flatten_node(node: PlanNode) -> FlattenNode {
    FlattenNode { path: path(), node: Box::new(node) }
}

fn response(errors: Option<Vec<GraphQLError>>, bytes: Option<Vec<u8>>) -> SubgraphResponse<u8, u8> {
    SubgraphResponse { data: 42, errors, headers: Some(7), bytes }
}

fn error(message: &str) -> GraphQLError {
    GraphQLError {
        message: message.to_string(),
        locations: None,
        path: None,
        extensions: GraphQLErrorExtensions::default(),
    }
}

fn flag(text: &str) -> Option<VariableValues> {
    let mut values = VariableValues::new();
    values.insert("flag".to_string(), json(text));
    Some(values)
}

fn condition(if_clause: Option<PlanNode>, else_clause: Option<PlanNode>) -> PlanNode {
    PlanNode::Condition(ConditionNode {
        condition: "flag".to_string(),
        if_clause: if_clause.map(Box::new),
        else_clause: else_clause.map(Box::new),
    })
}

fn requested(node: &PlanNode, values: &Option<VariableValues>) -> Option<i64> {
    match NodeJob::of_node(node, values) {
        Some(NodeJob::Fetch(fetch)) => Some(fetch.id),
        Some(NodeJob::Flatten(_)) => Some(-1),
        None => None,
    }
}

#[test]
fn fetches_and_flattened_fetches_are_requested() {
    assert_eq!(requested(&PlanNode::Fetch(fetch_node(1)), &None), Some(1));
    let flatten = PlanNode::Flatten(flatten_node(PlanNode::Fetch(fetch_node(1))));
    assert_eq!(requested(&flatten, &None), Some(-1));
}

#[test]
fn groups_and_subscriptions_are_not_requested() {
    let fetch = || PlanNode::Fetch(fetch_node(1));
    let sequence = PlanNode::Sequence(SequenceNode { nodes: vec![fetch()] });
    assert_eq!(requested(&sequence, &None), None);
    let parallel = PlanNode::Parallel(ParallelNode { nodes: vec![fetch()] });
    assert_eq!(requested(&parallel, &None), None);
    let subscription =
        PlanNode::Subscription(SubscriptionNode { primary: Box::new(fetch()) });
    assert_eq!(requested(&subscription, &None), None);
}

#[test]
fn a_condition_requests_the_chosen_clause() {
    let node = condition(
        Some(PlanNode::Fetch(fetch_node(1))),
        Some(condition(None, Some(PlanNode::Fetch(fetch_node(2))))),
    );
    assert_eq!(requested(&node, &flag("true")), Some(1));
    assert_eq!(requested(&node, &flag("false")), Some(2));
    assert_eq!(requested(&node, &None), None);
    let group = condition(Some(PlanNode::Sequence(SequenceNode { nodes: vec![] })), None);
    assert_eq!(requested(&group, &flag("true")), None);
    assert_eq!(requested(&group, &flag("false")), None);
}

#[test]
fn a_flattened_fetch_needs_requirements() {
    let without = flatten_node(PlanNode::Fetch(fetch_node(1)));
    assert!(without.fetch_with_requires().is_none());

    let mut fetch = fetch_node(2);
    fetch.requires = Some(SelectionSet { items: vec![] });
    let with = flatten_node(PlanNode::Fetch(fetch));
    let (found, requires) = with.fetch_with_requires().unwrap();
    assert_eq!(found.id, 2);
    assert!(requires.items.is_empty());

    let group = flatten_node(PlanNode::Sequence(SequenceNode { nodes: vec![] }));
    assert!(group.fetch_with_requires().is_none());
}

#[test]
fn a_request_holds_what_its_fetch_says() {
    let mut values = VariableValues::new();
    values.insert("used".to_string(), json("1"));
    values.insert("unused".to_string(), json("2"));
    let values = Some(values);
    let executor = Executor {
        variable_values: &values,
        jwt_forwarding_plan: None,
        dedupe_subgraph_requests: true,
    };
    let mut node = fetch_node(1);
    node.operation_name = Some("Name".to_string());
    let mut usages = NameSet::new();
    usages.insert("used".to_string());
    node.variable_usages = Some(usages);

    let request = executor.fetch_request(&node, Some(b"[]".to_vec()));

    assert_eq!(request.query, "{ a }");
    assert!(request.dedupe);
    assert_eq!(request.operation_name, Some("Name"));
    let variables = request.variables.unwrap();
    assert_eq!(variables.len(), 1);
    assert_eq!(**variables.get("used").unwrap(), json("1"));
    assert_eq!(request.representations, Some(b"[]".to_vec()));
    assert!(request.extensions.is_none());
}

#[test]
fn a_request_carries_the_forwarded_claims() {
    let executor = Executor {
        variable_values: &None,
        jwt_forwarding_plan: Some(JwtAuthForwardingPlan {
            extension_field_name: "jwt".to_string(),
            extension_field_value: json("{\"sub\":\"me\"}"),
        }),
        dedupe_subgraph_requests: false,
    };
    let node = fetch_node(1);
    let request = executor.fetch_request(&node, None);
    assert!(!request.dedupe);
    assert_eq!(request.operation_name, None);
    assert!(request.variables.is_none());
    assert_eq!(request.representations, None);
    let extensions = request.extensions.unwrap();
    assert_eq!(extensions.len(), 1);
    assert_eq!(**extensions.get("jwt").unwrap(), json("{\"sub\":\"me\"}"));
}

#[test]
fn extension_fields_are_set() {
    let (one, two, three) = (json("1"), json("2"), json("3"));
    let mut request = SubgraphExecutionRequest {
        query: "{ a }",
        dedupe: false,
        operation_name: None,
        variables: None,
        representations: None,
        extensions: None,
    };
    request.add_request_extensions_field("a".to_string(), &one);
    request.add_request_extensions_field("b".to_string(), &two);
    request.add_request_extensions_field("a".to_string(), &three);
    let extensions = request.extensions.unwrap();
    assert_eq!(extensions.len(), 2);
    assert_eq!(**extensions.get("a").unwrap(), json("3"));
    assert_eq!(**extensions.get("b").unwrap(), json("2"));
}

#[test]
fn the_requests_of_queries_are_deduplicated() {
    assert!(dedupes_requests("Query"));
    assert!(!dedupes_requests("Mutation"));
    assert!(!dedupes_requests("Subscription"));
    assert!(!dedupes_requests("query"));
    assert!(!dedupes_requests(""));
}

#[test]
fn kinds_are_written() {
    assert_eq!(operation_kind_text(&Some(OperationKind::Query)), "query");
    assert_eq!(operation_kind_text(&Some(OperationKind::Mutation)), "mutation");
    assert_eq!(operation_kind_text(&Some(OperationKind::Subscription)), "subscription");
    assert_eq!(operation_kind_text(&None), "query");
}

#[test]
fn a_job_knows_its_fetch() {
    let node = fetch_node(3);
    let job = ExecutionJob::of_fetch(&node, response(None, None));
    assert_eq!(job.fetch_node_id(), 3);
    assert_eq!(job.subgraph_name(), "products");
    assert!(job.affected_path().is_none());
    assert_eq!(job.response_ref().data, 42);
    assert_eq!(job.response().headers, Some(7));

    let path = path();
    let job = ExecutionJob::of_flatten(
        &node,
        &path,
        response(None, None),
        vec![1],
        HashMap::from([(1, 0)]),
    );
    assert_eq!(job.fetch_node_id(), 3);
    assert_eq!(job.subgraph_name(), "products");
    assert_eq!(job.affected_path(), Some(&path));
    assert_eq!(job.response_ref().data, 42);
    assert_eq!(job.response().data, 42);
}

#[test]
fn the_answer_of_a_fetch_goes_to_the_root() {
    let node = fetch_node(3);
    let mut ctx = ExecutionContext::default();
    ctx.response_storage.add_response(b"earlier".to_vec());
    let job = ExecutionJob::of_fetch(
        &node,
        response(Some(vec![error("broken")]), Some(b"raw".to_vec())),
    );
    let received = ctx.process_job_result(Ok(job), None).unwrap();
    assert_eq!(received.fetch_node_id, 3);
    assert_eq!(received.data, 42);
    assert!(matches!(received.merge, Merge::Root));
    assert_eq!(received.report.subgraph_name, "products");
    assert!(received.report.affected_path.is_none());
    assert_eq!(received.report.errors, Some(vec![error("broken")]));
    assert_eq!(ctx.response_storage.responses, vec![b"earlier".to_vec(), b"raw".to_vec()]);
    assert!(ctx.errors.is_empty());

    ctx.report(received.report, None);
    assert_eq!(ctx.errors.len(), 1);
    assert_eq!(ctx.errors[0].message, "broken");
    assert_eq!(ctx.errors[0].extensions.service_name, Some("products".to_string()));
    assert_eq!(ctx.errors[0].extensions.affected_path, None);
}

#[test]
fn the_answer_of_a_flattened_fetch_goes_to_its_objects() {
    let node = fetch_node(3);
    let path = path();
    for (errors, places_are_kept) in [(None, false), (Some(vec![]), true)] {
        let mut ctx = ExecutionContext::default();
        let job = ExecutionJob::of_flatten(
            &node,
            &path,
            response(errors, None),
            vec![8, 9],
            HashMap::from([(9, 0)]),
        );
        let received = ctx.process_job_result(Ok(job), None).unwrap();
        assert_eq!(received.report.affected_path, Some(&path));
        match received.merge {
            Merge::Entities(to, mut merge) => {
                assert_eq!(to, &path);
                assert_eq!(merge.visit(None), None);
                assert_eq!(merge.visit(None), Some(0));
                assert_eq!(merge.finish().is_some(), places_are_kept);
            }
            Merge::Root => panic!("not merged into the root"),
        }
        assert!(ctx.response_storage.responses.is_empty());
    }
}

#[test]
fn the_errors_of_entities_are_reported_at_their_places() {
    let node = fetch_node(3);
    let path = path();
    let place = |index: usize| GraphQLErrorPath {
        segments: vec![
            GraphQLErrorPathSegment::String("users".to_string()),
            GraphQLErrorPathSegment::Index(index),
        ],
    };
    let mut entity_error = error("broken");
    entity_error.path = Some(GraphQLErrorPath {
        segments: vec![
            GraphQLErrorPathSegment::String("_entities".to_string()),
            GraphQLErrorPathSegment::Index(0),
        ],
    });
    let job = ExecutionJob::of_flatten(
        &node,
        &path,
        response(Some(vec![entity_error]), None),
        vec![9, 8, 9],
        HashMap::from([(9, 0), (8, 1)]),
    );
    let mut ctx = ExecutionContext::default();
    let received = ctx.process_job_result(Ok(job), None).unwrap();
    match received.merge {
        Merge::Entities(_, mut merge) => {
            for index in 0..3 {
                merge.visit(Some(place(index)));
            }
            ctx.report(received.report, Some(merge));
        }
        Merge::Root => panic!("not merged into the root"),
    }
    let reported: Vec<&GraphQLErrorPath> =
        ctx.errors.iter().map(|error| error.path.as_ref().unwrap()).collect();
    assert_eq!(reported, vec![&place(0), &place(2)]);
    for error in &ctx.errors {
        assert_eq!(error.extensions.affected_path, Some("users.@".to_string()));
    }
}

#[test]
fn a_failed_job_is_reported() {
    let mut ctx = ExecutionContext::default();
    let failed: Result<ExecutionJob<u8, u8>, GraphQLError> = Err(error("down"));
    assert!(ctx.process_job_result(failed, Some(error("not looked at"))).is_none());
    assert_eq!(ctx.errors, vec![error("down")]);
    assert!(ctx.response_storage.responses.is_empty());
}

#[test]
fn an_error_in_the_headers_is_reported_first() {
    let node = fetch_node(3);
    let mut ctx = ExecutionContext::default();
    let job = ExecutionJob::of_fetch(&node, response(Some(vec![error("broken")]), None));
    let received = ctx.process_job_result(Ok(job), Some(error("bad header"))).unwrap();
    assert_eq!(ctx.errors, vec![error("bad header")]);
    ctx.report(received.report, None);
    let messages: Vec<&str> = ctx.errors.iter().map(|error| error.message.as_str()).collect();
    assert_eq!(messages, vec!["bad header", "broken"]);
}

#[test]
fn an_answer_without_entities_is_reported_as_it_is() {
    let node = fetch_node(3);
    let path = path();
    let mut entity_error = error("broken");
    entity_error.path = Some(GraphQLErrorPath {
        segments: vec![
            GraphQLErrorPathSegment::String("_entities".to_string()),
            GraphQLErrorPathSegment::Index(0),
        ],
    });
    let expected = entity_error.path.clone();
    let job = ExecutionJob::of_flatten(
        &node,
        &path,
        response(Some(vec![entity_error]), None),
        vec![9],
        HashMap::from([(9, 0)]),
    );
    let mut ctx = ExecutionContext::default();
    let received = ctx.process_job_result(Ok(job), None).unwrap();
    ctx.report(received.report, None);
    assert_eq!(ctx.errors.len(), 1);
    assert_eq!(ctx.errors[0].path, expected);
}

#[test]
fn a_response_starts_from_its_initial_data() {
    assert_eq!(initial_data(true, true), InitialData::Introspection);
    assert_eq!(initial_data(true, false), InitialData::Introspection);
    assert_eq!(initial_data(false, true), InitialData::Null);
    assert_eq!(initial_data(false, false), InitialData::EmptyObject);
}

#[test]
fn an_output_is_empty_by_default() {
    let output: PlanExecutionOutput<u8> = PlanExecutionOutput::default();
    assert!(output.body.is_empty());
    assert_eq!(output.response_headers_aggregator, None);
    assert_eq!(output.error_count, 0);
}
