//! The objects of a response: what is done to them when data is asked for and when it comes back.
//!
//! How an object is held is left to whoever runs a plan. [`Objects`] is what has to be known of it.

use vstd::prelude::*;

use crate::ast::SelectionSet;
use crate::plan_nodes::{rewrites_view, FetchRewrite, FetchRewriteView};

verus! {

/// What is written for an object that is asked for.
#[derive(Debug)]
pub struct Projection {
    pub bytes: Vec<u8>,
    /// Whether the bytes hold a representation.
    pub is_projected: bool,
}

/// The objects of a response, each of them a `V`.
pub trait Objects<V> {
    /// The hash of what is required of an object.
    fn hash(&self, object: &V, required: &SelectionSet) -> u64;

    /// Whether an object is null.
    fn is_null(&self, object: &V) -> bool;

    /// A copy of an object.
    fn copy(&self, object: &V) -> V;

    /// An object after a rewrite.
    fn rewrite(&self, rewrite: &FetchRewrite, object: V) -> V;

    /// What is written for an object. Before one that is not the `first`, a comma is written.
    fn project(&self, required: &SelectionSet, object: &V, first: bool) -> Projection;

    /// The entities in the data of an answer, where it has any.
    fn entities(&self, data: V) -> Option<Vec<V>>;

    /// An object with what another one holds added to it.
    fn merge(&self, target: V, source: V) -> V;
}

/// Whether a rewrite turns `from` into `to`.
pub open spec fn rewritten_once<V, O: Objects<V>>(
    objects: &O,
    rewrite: FetchRewriteView,
    from: V,
    to: V,
) -> bool {
    exists|given: FetchRewrite|
        given@ == rewrite && #[trigger] call_ensures(O::rewrite, (objects, &given, from), to)
}

/// Whether rewrites, applied one after the other in their order, turn `from` into `to`.
pub open spec fn rewritten<V, O: Objects<V>>(
    objects: &O,
    rewrites: Seq<FetchRewriteView>,
    from: V,
    to: V,
) -> bool
    decreases rewrites.len(),
{
    if rewrites.len() == 0 {
        to == from
    } else {
        exists|between: V| #[trigger]
            rewritten_once(objects, rewrites.last(), between, to) && rewritten(
                objects,
                rewrites.drop_last(),
                from,
                between,
            )
    }
}

/// Applies rewrites to an object, one after the other.
pub fn rewrite_all<V, O: Objects<V>>(objects: &O, rewrites: &[FetchRewrite], object: V) -> (changed:
    V)
    ensures
        rewritten(objects, rewrites_view(rewrites@), object, changed),
{
    let ghost all = rewrites_view(rewrites@);
    let ghost from = object;
    let mut object = object;
    assert(all.take(0) =~= Seq::empty());
    for i in 0..rewrites.len()
        invariant
            all == rewrites_view(rewrites@),
            rewritten(objects, all.take(i as int), from, object),
    {
        let ghost between = object;
        object = objects.rewrite(&rewrites[i], object);
        proof {
            let next = all.take(i + 1);
            assert(next.drop_last() =~= all.take(i as int));
            assert(next.last() == rewrites@[i as int]@);
            assert(rewritten_once(objects, next.last(), between, object));
            assert(rewritten(objects, next.drop_last(), from, between));
        }
    }
    assert(all.take(all.len() as int) =~= all);
    object
}

/// Applies rewrites to each of some entities.
pub fn rewrite_each<V, O: Objects<V>>(objects: &O, rewrites: &[FetchRewrite], entities: Vec<V>) -> (
changed: Vec<V>)
    ensures
        changed@.len() == entities@.len(),
        forall|k: int|
            #![trigger rewritten(objects, rewrites_view(rewrites@), entities@[k], changed@[k])]
            #![trigger changed@[k]]
            0 <= k < entities@.len() ==> rewritten(
                objects,
                rewrites_view(rewrites@),
                entities@[k],
                changed@[k],
            ),
{
    let ghost all = entities@;
    let mut changed: Vec<V> = Vec::new();
    for entity in it: entities
        invariant
            it.seq() == all,
            changed@.len() == it.index(),
            forall|k: int|
                0 <= k < it.index() ==> #[trigger] rewritten(
                    objects,
                    rewrites_view(rewrites@),
                    all[k],
                    changed@[k],
                ),
    {
        changed.push(rewrite_all(objects, rewrites, entity));
    }
    changed
}

/// Whether `changed` is what is asked for in the place of an object: the object itself, or a copy of
/// it after the input rewrites where there are any.
pub open spec fn prepared_from<V, O: Objects<V>>(
    objects: &O,
    rewrites: Option<Seq<FetchRewriteView>>,
    object: V,
    changed: V,
) -> bool {
    match rewrites {
        Some(rewrites) => exists|copy: V| #[trigger]
            call_ensures(O::copy, (objects, &object), copy) && rewritten(
                objects,
                rewrites,
                copy,
                changed,
            ),
        None => changed == object,
    }
}

} // verus!
