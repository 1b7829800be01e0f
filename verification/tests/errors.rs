use std::collections::HashMap;

use query_plan::context::ExecutionContext;
use query_plan::errors::{
    GraphQLError, GraphQLErrorExtensions, GraphQLErrorLocation, GraphQLErrorPath,
    GraphQLErrorPathSegment,
};
use query_plan::plan_nodes::{FlattenNodePath, FlattenNodePathSegment, QueryPlan};

/// The same entity stands at two places, `["a", 0]` and `["b", 1]`, and the answer of the subgraph
/// has an error for it. The error is reported at both.
#[test]
fn normalize_entity_errors_correctly() {
    let mut ctx = ExecutionContext::default();
    let mut entity_index_error_map: HashMap<usize, Vec<GraphQLErrorPath>> = HashMap::new();
    entity_index_error_map.insert(
        0,
        vec![
            GraphQLErrorPath {
                segments: vec![
                    GraphQLErrorPathSegment::String("a".to_string()),
                    GraphQLErrorPathSegment::Index(0),
                ],
            },
            GraphQLErrorPath {
                segments: vec![
                    GraphQLErrorPathSegment::String("b".to_string()),
                    GraphQLErrorPathSegment::Index(1),
                ],
            },
        ],
    );
    let response_errors = vec![GraphQLError {
        message: "Error 1".to_string(),
        locations: None,
        path: Some(GraphQLErrorPath {
            segments: vec![
                GraphQLErrorPathSegment::String("_entities".to_string()),
                GraphQLErrorPathSegment::Index(0),
                GraphQLErrorPathSegment::String("field1".to_string()),
            ],
        }),
        extensions: GraphQLErrorExtensions::default(),
    }];
    ctx.handle_errors(
        "subgraph_a",
        None,
        Some(response_errors),
        Some(entity_index_error_map),
    );
    assert_eq!(ctx.errors.len(), 2);
    assert_eq!(ctx.errors[0].message, "Error 1");
    assert_eq!(
        ctx.errors[0].path.as_ref().unwrap().segments,
        vec![
            GraphQLErrorPathSegment::String("a".to_string()),
            GraphQLErrorPathSegment::Index(0),
            GraphQLErrorPathSegment::String("field1".to_string())
        ]
    );
    assert_eq!(ctx.errors[1].message, "Error 1");
    assert_eq!(
        ctx.errors[1].path.as_ref().unwrap().segments,
        vec![
            GraphQLErrorPathSegment::String("b".to_string()),
            GraphQLErrorPathSegment::Index(1),
            GraphQLErrorPathSegment::String("field1".to_string())
        ]
    );
}

fn segment(name: &str) -> GraphQLErrorPathSegment {
    GraphQLErrorPathSegment::String(name.to_string())
}

fn error_at(segments: Option<Vec<GraphQLErrorPathSegment>>) -> GraphQLError {
    GraphQLError {
        message: "broken".to_string(),
        locations: Some(vec![GraphQLErrorLocation { line: 1, column: 2 }]),
        path: segments.map(|segments| GraphQLErrorPath { segments }),
        extensions: GraphQLErrorExtensions::default(),
    }
}

#[test]
fn errors_say_where_they_come_from() {
    let path = FlattenNodePath::new(vec![
        FlattenNodePathSegment::Field("users".to_string()),
        FlattenNodePathSegment::List,
    ]);
    let mut ctx = ExecutionContext::default();
    ctx.handle_errors("products", Some(&path), Some(vec![error_at(None)]), None);
    assert_eq!(ctx.errors.len(), 1);
    assert_eq!(ctx.errors[0].message, "broken");
    assert_eq!(ctx.errors[0].locations, Some(vec![GraphQLErrorLocation { line: 1, column: 2 }]));
    assert_eq!(ctx.errors[0].path, None);
    assert_eq!(ctx.errors[0].extensions.code, None);
    assert_eq!(ctx.errors[0].extensions.service_name, Some("products".to_string()));
    assert_eq!(ctx.errors[0].extensions.affected_path, Some("users.@".to_string()));
}

#[test]
fn what_an_error_says_itself_stands() {
    let mut error = error_at(None);
    error.extensions.code = Some("CODE".to_string());
    error.extensions.service_name = Some("inner".to_string());
    let attributed = error.attribute(Some("outer".to_string()), Some("path".to_string()));
    assert_eq!(attributed.extensions.code, Some("CODE".to_string()));
    assert_eq!(attributed.extensions.service_name, Some("inner".to_string()));
    assert_eq!(attributed.extensions.affected_path, Some("path".to_string()));
}

#[test]
fn without_errors_nothing_is_reported() {
    let mut ctx = ExecutionContext::default();
    ctx.handle_errors("products", None, None, Some(HashMap::new()));
    ctx.handle_errors("products", None, Some(vec![]), None);
    assert!(ctx.errors.is_empty());
}

#[test]
fn errors_are_added_to_earlier_ones() {
    let plan = QueryPlan { kind: "QueryPlan".to_string(), node: None };
    let mut ctx = ExecutionContext::new(&plan, vec![error_at(None)]);
    ctx.handle_errors("a", None, Some(vec![error_at(None), error_at(None)]), None);
    assert_eq!(ctx.errors.len(), 3);
    assert_eq!(ctx.errors[0].extensions.service_name, None);
    assert_eq!(ctx.errors[2].extensions.service_name, Some("a".to_string()));
}

#[test]
fn entity_errors_are_told_by_their_paths() {
    let index = |segments| error_at(segments).entity_index();
    let at = GraphQLErrorPathSegment::Index;
    assert_eq!(index(Some(vec![segment("_entities"), at(3)])), Some(3));
    assert_eq!(index(Some(vec![segment("_entities"), at(3), segment("a")])), Some(3));
    assert_eq!(index(Some(vec![segment("_entities")])), None);
    assert_eq!(index(Some(vec![segment("_entities"), segment("a")])), None);
    assert_eq!(index(Some(vec![segment("entities"), at(3)])), None);
    assert_eq!(index(Some(vec![at(0), at(3)])), None);
    assert_eq!(index(Some(vec![])), None);
    assert_eq!(index(None), None);
}

#[test]
fn errors_that_belong_to_no_place_are_reported_as_they_are() {
    let known = HashMap::from([(
        0,
        vec![GraphQLErrorPath { segments: vec![segment("a")] }],
    )]);
    let other = error_at(Some(vec![segment("_entities"), GraphQLErrorPathSegment::Index(1)]));
    assert_eq!(other.clone().normalize_entity_error(&known), vec![other]);
    let root = error_at(Some(vec![segment("field")]));
    assert_eq!(root.clone().normalize_entity_error(&known), vec![root]);
}

#[test]
fn no_error_of_a_subgraph_is_lost() {
    let known = HashMap::from([(
        0,
        vec![GraphQLErrorPath { segments: vec![segment("a"), GraphQLErrorPathSegment::Index(4)] }],
    )]);
    let mut first = error_at(Some(vec![segment("_entities"), GraphQLErrorPathSegment::Index(0)]));
    first.message = "first".to_string();
    let mut second = error_at(Some(vec![segment("_entities"), GraphQLErrorPathSegment::Index(9)]));
    second.message = "second".to_string();
    let mut ctx = ExecutionContext::default();
    ctx.handle_errors("s", None, Some(vec![first, second]), Some(known));
    let messages: Vec<&str> = ctx.errors.iter().map(|error| error.message.as_str()).collect();
    assert_eq!(messages, vec!["first", "second"]);
    assert_eq!(
        ctx.errors[0].path.as_ref().unwrap().segments,
        vec![segment("a"), GraphQLErrorPathSegment::Index(4)]
    );
}
