use std::collections::HashMap;

use query_plan::ast::{
    Document, OperationDefinition, SelectionItem, SelectionSet, SubgraphFetchOperation,
};
use query_plan::context::ExecutionContext;
use query_plan::entities::{EntityMerge, RepresentationBatch};
use query_plan::errors::{
    GraphQLError, GraphQLErrorExtensions, GraphQLErrorPath, GraphQLErrorPathSegment,
};
use query_plan::jobs::{ExecutionJob, Merged, SubgraphResponse};
use query_plan::objects::{rewrite_all, rewrite_each, Objects, Projection};
use query_plan::plan_nodes::{
    FetchNode, FetchRewrite, FlattenNodePath, FlattenNodePathSegment, PlanNode, QueryPlan,
    ValueSetter,
};

/// Objects that are texts. A rewrite appends its value, a merge puts two texts together, a copy is
/// marked, and the entities of an answer are its words.
struct Texts;

impl Objects<String> for Texts {
    fn hash(&self, object: &String, required: &SelectionSet) -> u64 {
        (object.len() * 10 + required.items.len()) as u64
    }

    fn is_null(&self, object: &String) -> bool {
        object.is_empty()
    }

    fn copy(&self, object: &String) -> String {
        format!("{}'", object)
    }

    fn rewrite(&self, rewrite: &FetchRewrite, object: String) -> String {
        match rewrite {
            FetchRewrite::ValueSetter(setter) => format!("{}{}", object, setter.set_value_to),
            FetchRewrite::KeyRenamer(renamer) => format!("{}{}", object, renamer.rename_key_to),
        }
    }

    fn project(&self, required: &SelectionSet, object: &String, first: bool) -> Projection {
        let comma = if first { "" } else { "," };
        let is_projected = !required.items.is_empty() && !object.starts_with('!');
        let bytes = if is_projected { format!("{}{}", comma, object) } else { String::new() };
        Projection { bytes: bytes.into_bytes(), is_projected }
    }

    fn entities(&self, data: String) -> Option<Vec<String>> {
        if data.is_empty() {
            None
        } else {
            Some(data.split(' ').map(|word| word.to_string()).collect())
        }
    }

    fn merge(&self, target: String, source: String) -> String {
        format!("({}+{})", target, source)
    }
}

fn text(text: &str) -> String {
    text.to_string()
}

fn append(value: &str) -> FetchRewrite {
    FetchRewrite::ValueSetter(ValueSetter { path: vec![], set_value_to: text(value) })
}

fn required() -> SelectionSet {
    SelectionSet { items: vec![SelectionItem::FragmentSpread(text("key"))] }
}

fn fetch_node(id: i64, output_rewrites: Option<Vec<FetchRewrite>>) -> FetchNode {
    FetchNode {
        id,
        service_name: text("products"),
        variable_usages: None,
        operation_kind: None,
        operation_name: None,
        operation: SubgraphFetchOperation {
            document: Document {
                operation: OperationDefinition {
                    name: None,
                    operation_kind: None,
                    selection_set: SelectionSet { items: vec![] },
                    variable_definitions: None,
                },
                fragments: vec![],
            },
            document_str: text("{ a }"),
            hash: 0,
        },
        requires: None,
        input_rewrites: None,
        output_rewrites,
        depends_on: None,
    }
}

fn context(output_rewrites: Option<Vec<FetchRewrite>>) -> ExecutionContext {
    let plan = QueryPlan {
        kind: text("QueryPlan"),
        node: Some(PlanNode::Fetch(fetch_node(3, output_rewrites))),
    };
    ExecutionContext::new(&plan, vec![])
}

fn error(message: &str) -> GraphQLError {
    GraphQLError {
        message: text(message),
        locations: None,
        path: None,
        extensions: GraphQLErrorExtensions::default(),
    }
}

fn answer(data: &str, errors: Option<Vec<GraphQLError>>) -> SubgraphResponse<String, u8> {
    SubgraphResponse { data: text(data), errors, headers: None, bytes: None }
}

fn path() -> FlattenNodePath {
    FlattenNodePath::new(vec![
        FlattenNodePathSegment::Field(text("users")),
        FlattenNodePathSegment::List,
    ])
}

#[test]
fn rewrites_are_applied_in_their_order() {
    let rewrites = [append("1"), append("2"), append("3")];
    assert_eq!(rewrite_all(&Texts, &rewrites, text("a")), "a123");
    assert_eq!(rewrite_all(&Texts, &[], text("a")), "a");
}

#[test]
fn every_rewrite_is_applied_to_every_entity() {
    let rewrites = [append("1"), append("2")];
    let entities = vec![text("a"), text("b"), text("c")];
    assert_eq!(rewrite_each(&Texts, &rewrites, entities), ["a12", "b12", "c12"]);
    assert!(rewrite_each(&Texts, &rewrites, vec![]).is_empty());
}

#[test]
fn objects_are_gathered_after_their_rewrites() {
    let rewrites = Some(vec![append("1"), append("2")]);
    let mut batch = RepresentationBatch::new();
    for object in ["a", "bb", "c"] {
        assert!(batch.gather(&Texts, &rewrites, &required(), &text(object)));
    }
    let representations = batch.finish().unwrap();
    // "c" has the hash of "a", taken before the rewrites
    assert_eq!(representations.bytes, b"[a'12,bb'12]");
    assert_eq!(representations.hashes, vec![11, 21, 11]);
    assert_eq!(representations.hash_to_index, HashMap::from([(11, 0), (21, 1)]));
}

#[test]
fn without_rewrites_an_object_is_gathered_as_it_stands() {
    let mut batch = RepresentationBatch::new();
    assert!(batch.gather(&Texts, &None, &required(), &text("a")));
    assert_eq!(batch.finish().unwrap().bytes, b"[a]");

    let mut batch = RepresentationBatch::new();
    assert!(batch.gather(&Texts, &Some(vec![]), &required(), &text("a")));
    assert_eq!(batch.finish().unwrap().bytes, b"[a']");
}

#[test]
fn null_objects_and_failed_projections_are_gathered() {
    let mut batch = RepresentationBatch::new();
    for object in ["!x", "", "abc"] {
        assert!(batch.gather(&Texts, &None, &required(), &text(object)));
    }
    let representations = batch.finish().unwrap();
    assert_eq!(representations.hashes, vec![21, 31]);
    assert_eq!(representations.hash_to_index, HashMap::from([(1, 1), (31, 2)]));
    assert_eq!(representations.bytes, b"[,abc]");
}

#[test]
fn an_object_is_completed_by_a_copy_of_its_entity() {
    let entities = vec![text("x"), text("y")];
    let index_of = HashMap::from([(1, 1), (2, 0), (3, 2)]);
    let mut merge = EntityMerge::new(vec![1, 2, 3, 4], index_of, false);
    assert_eq!(merge.complete(&Texts, &entities, text("a"), None), "(a+y')");
    assert_eq!(merge.complete(&Texts, &entities, text("b"), None), "(b+x')");
    // an entity beyond the list, and an object that nothing was asked for
    assert_eq!(merge.complete(&Texts, &entities, text("c"), None), "c");
    assert_eq!(merge.complete(&Texts, &entities, text("d"), None), "d");
    assert!(!merge.has_next());
}

#[test]
fn the_data_of_a_fetch_is_rewritten_and_merged() {
    let node = fetch_node(3, None);
    let mut ctx = context(Some(vec![append("1"), append("2")]));
    let job = ExecutionJob::of_fetch(&node, answer("new", Some(vec![error("broken")])));
    let received = ctx.process_job_result(Ok(job), None).unwrap();
    match ctx.merge(&Texts, received, text("old")) {
        Merged::Done(response) => assert_eq!(response, "(old+new12)"),
        other => panic!("unexpected {:?}", other),
    }
    assert_eq!(ctx.errors.len(), 1);
    assert_eq!(ctx.errors[0].extensions.service_name, Some(text("products")));
    assert_eq!(ctx.errors[0].extensions.affected_path, None);
}

#[test]
fn without_output_rewrites_the_data_is_merged_as_it_came() {
    let node = fetch_node(3, None);
    for mut ctx in [context(None), context(Some(vec![]))] {
        let job = ExecutionJob::of_fetch(&node, answer("new", None));
        let received = ctx.process_job_result(Ok(job), None).unwrap();
        match ctx.merge(&Texts, received, text("old")) {
            Merged::Done(response) => assert_eq!(response, "(old+new)"),
            other => panic!("unexpected {:?}", other),
        }
        assert!(ctx.errors.is_empty());
    }
}

#[test]
fn the_entities_of_a_flattened_fetch_are_walked_with() {
    let node = fetch_node(3, None);
    let path = path();
    let mut ctx = context(Some(vec![append("1"), append("2")]));
    let mut entity_error = error("broken");
    entity_error.path = Some(GraphQLErrorPath {
        segments: vec![
            GraphQLErrorPathSegment::String(text("_entities")),
            GraphQLErrorPathSegment::Index(0),
        ],
    });
    let job = ExecutionJob::of_flatten(
        &node,
        &path,
        answer("x y", Some(vec![entity_error])),
        vec![8, 9],
        HashMap::from([(8, 1), (9, 0)]),
    );
    let received = ctx.process_job_result(Ok(job), None).unwrap();
    let mut walk = match ctx.merge(&Texts, received, text("old")) {
        Merged::Walk(walk) => walk,
        other => panic!("unexpected {:?}", other),
    };
    assert_eq!(walk.response, "old");
    assert_eq!(walk.path, &path);
    assert_eq!(walk.entities, ["x12", "y12"]);
    assert_eq!(walk.error_path, Some(GraphQLErrorPath { segments: vec![] }));
    assert!(ctx.errors.is_empty());

    let place = |index: usize| GraphQLErrorPath {
        segments: vec![GraphQLErrorPathSegment::Index(index)],
    };
    let first = walk.merge.complete(&Texts, &walk.entities, text("a"), Some(place(0)));
    assert_eq!(first, "(a+y12')");
    let second = walk.merge.complete(&Texts, &walk.entities, text("b"), Some(place(1)));
    assert_eq!(second, "(b+x12')");
    ctx.report(walk.report, Some(walk.merge));
    assert_eq!(ctx.errors.len(), 1);
    assert_eq!(ctx.errors[0].path, Some(place(1)));
}

#[test]
fn without_errors_no_places_are_kept() {
    let node = fetch_node(3, None);
    let path = path();
    let mut ctx = context(None);
    let job = ExecutionJob::of_flatten(
        &node,
        &path,
        answer("x", None),
        vec![8],
        HashMap::from([(8, 0)]),
    );
    let received = ctx.process_job_result(Ok(job), None).unwrap();
    match ctx.merge(&Texts, received, text("old")) {
        Merged::Walk(walk) => {
            assert_eq!(walk.error_path, None);
            assert_eq!(walk.entities, ["x"]);
        }
        other => panic!("unexpected {:?}", other),
    }
}

#[test]
fn an_answer_without_entities_changes_no_data() {
    let node = fetch_node(3, None);
    let path = path();
    let mut ctx = context(Some(vec![append("1")]));
    let job = ExecutionJob::of_flatten(
        &node,
        &path,
        answer("", Some(vec![error("broken")])),
        vec![8],
        HashMap::from([(8, 0)]),
    );
    let received = ctx.process_job_result(Ok(job), None).unwrap();
    match ctx.merge(&Texts, received, text("old")) {
        Merged::Done(response) => assert_eq!(response, "old"),
        other => panic!("unexpected {:?}", other),
    }
    assert_eq!(ctx.errors.len(), 1);
    assert_eq!(ctx.errors[0].extensions.affected_path, Some(text("users.@")));
}
