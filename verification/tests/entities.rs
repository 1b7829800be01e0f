use std::collections::HashMap;

use query_plan::entities::{EntityMerge, RepresentationBatch, CLOSE_BRACKET, OPEN_BRACKET};
use query_plan::errors::{GraphQLErrorPath, GraphQLErrorPathSegment};

fn place(index: usize) -> GraphQLErrorPath {
    GraphQLErrorPath {
        segments: vec![
            GraphQLErrorPathSegment::String("users".to_string()),
            GraphQLErrorPathSegment::Index(index),
        ],
    }
}

#[test]
fn brackets_are_those_of_json() {
    assert_eq!(OPEN_BRACKET, b'[');
    assert_eq!(CLOSE_BRACKET, b']');
}

#[test]
fn representations_are_gathered() {
    let mut batch = RepresentationBatch::new();
    assert_eq!(batch.visit(10, false), Some(true));
    batch.add(10, b"{\"id\":1}", true);
    assert_eq!(batch.visit(20, false), Some(false));
    batch.add(20, b",{\"id\":2}", true);

    let representations = batch.finish().unwrap();

    assert_eq!(representations.bytes, b"[{\"id\":1},{\"id\":2}]");
    assert_eq!(representations.hashes, vec![10, 20]);
    assert_eq!(representations.hash_to_index, HashMap::from([(10, 0), (20, 1)]));
}

#[test]
fn equal_objects_are_asked_for_once() {
    let mut batch = RepresentationBatch::new();
    assert_eq!(batch.visit(10, false), Some(true));
    batch.add(10, b"{}", true);
    assert_eq!(batch.visit(10, false), None);
    assert_eq!(batch.visit(10, true), None);

    let representations = batch.finish().unwrap();

    assert_eq!(representations.bytes, b"[{}]");
    assert_eq!(representations.hashes, vec![10, 10]);
    assert_eq!(representations.hash_to_index, HashMap::from([(10, 0)]));
}

#[test]
fn an_object_that_is_not_projected_takes_an_index() {
    let mut batch = RepresentationBatch::new();
    assert_eq!(batch.visit(1, true), Some(true));
    batch.add(1, b"", false);
    assert_eq!(batch.visit(2, false), Some(true));
    batch.add(2, b"{}", true);

    let representations = batch.finish().unwrap();

    assert_eq!(representations.bytes, b"[{}]");
    assert_eq!(representations.hashes, vec![2]);
    assert_eq!(representations.hash_to_index, HashMap::from([(2, 1)]));
}

#[test]
fn without_objects_nothing_is_asked_for() {
    assert!(RepresentationBatch::new().finish().is_none());

    let mut batch = RepresentationBatch::new();
    assert_eq!(batch.visit(1, false), Some(true));
    batch.add(1, b"", false);
    assert!(batch.finish().is_none());
}

#[test]
fn different_objects_have_different_indices() {
    let mut batch = RepresentationBatch::new();
    for hash in [5u64, 6, 5, 7, 6, 8] {
        if let Some(first) = batch.visit(hash, false) {
            assert_eq!(first, hash == 5);
            batch.add(hash, b"x", true);
        }
    }
    let representations = batch.finish().unwrap();
    assert_eq!(representations.hashes, vec![5, 6, 5, 7, 6, 8]);
    let mut indices: Vec<usize> = representations.hash_to_index.values().copied().collect();
    indices.sort();
    assert_eq!(indices, vec![0, 1, 2, 3]);
}

#[test]
fn entities_complete_the_objects_with_their_hashes() {
    let index_of = HashMap::from([(10, 0), (20, 1)]);
    let mut merge = EntityMerge::new(vec![20, 10, 30, 20], index_of, false);
    assert!(merge.has_next());
    assert_eq!(merge.visit(None), Some(1));
    assert_eq!(merge.visit(None), Some(0));
    assert_eq!(merge.visit(None), None);
    assert_eq!(merge.visit(None), Some(1));
    assert!(!merge.has_next());
    assert_eq!(merge.finish(), None);
}

#[test]
fn places_are_listed_where_the_answer_has_errors() {
    let index_of = HashMap::from([(10, 0), (20, 1)]);
    let mut merge = EntityMerge::new(vec![20, 10, 30, 20], index_of, true);
    for index in 0..4 {
        merge.visit(Some(place(index)));
    }
    let paths = merge.finish().unwrap();
    assert_eq!(
        paths,
        HashMap::from([(1, vec![place(0), place(3)]), (0, vec![place(1)])])
    );
}

#[test]
fn places_are_not_listed_without_errors() {
    let mut merge = EntityMerge::new(vec![10], HashMap::from([(10, 0)]), false);
    assert_eq!(merge.visit(Some(place(0))), Some(0));
    assert_eq!(merge.finish(), None);
}

#[test]
fn an_unknown_place_is_not_listed() {
    let mut merge = EntityMerge::new(vec![10], HashMap::from([(10, 0)]), true);
    assert_eq!(merge.visit(None), Some(0));
    assert_eq!(merge.finish(), Some(HashMap::new()));
}

#[test]
fn what_is_gathered_is_found_again() {
    let hashes = [4u64, 9, 4, 2];
    let mut batch = RepresentationBatch::new();
    for hash in hashes {
        if batch.visit(hash, false).is_some() {
            batch.add(hash, b"x", true);
        }
    }
    let representations = batch.finish().unwrap();
    let mut merge =
        EntityMerge::new(representations.hashes, representations.hash_to_index, false);
    let mut entities = Vec::new();
    for _ in hashes {
        entities.push(merge.visit(None));
    }
    assert_eq!(entities, vec![Some(0), Some(1), Some(0), Some(2)]);
}
