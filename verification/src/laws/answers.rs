//! What becomes of the answers of subgraphs.

use vstd::prelude::*;

use crate::ast::SelectionSet;
use crate::context::{
    opt_entity_places, opt_path_text, reported, rewrites_by_id, rewrites_of, stored_for,
};
use crate::entities::{
    completed_by, gathered, gathered_as, opt_place, with_place, written_for, BatchView, MergeView,
    CLOSE_BRACKET, OPEN_BRACKET,
};
use crate::errors::{
    at_place, at_places, attributed, entity_index, entity_places, errors_view, places, text_or,
    EntityPaths, ErrorView, GraphQLError, GraphQLErrorPath, GraphQLErrorPathSegment, Place,
};
use crate::jobs::{
    each_rewritten, merged_at_root, merges_job, received_from, stored, walks_with, EntityWalk,
    ErrorReport, ExecutionJob, Merge, ReceivedData, SubgraphResponse,
};
use crate::objects::{prepared_from, rewritten, rewritten_once, Objects, Projection};
use crate::paths::path_text;
use crate::plan_nodes::{
    opt_rewrites_view, rewrites_view, FetchNode, FetchRewrite, FetchRewriteView, FlattenNodePath,
};

verus! {

/// Whether a rewrite, given in whatever form reads like it, turns one object into another.
pub open spec fn turns<V, O: Objects<V>>(
    objects: &O,
    rewrite: FetchRewriteView,
    from: V,
    to: V,
) -> bool {
    exists|given: FetchRewrite|
        given@ == rewrite && #[trigger] call_ensures(O::rewrite, (objects, &given, from), to)
}

/// Without rewrites an object stays as it is. One rewrite, of whichever kind, is applied once.
pub proof fn one_rewrite_is_applied_once<V, O: Objects<V>>(
    objects: &O,
    rewrite: FetchRewriteView,
    from: V,
    to: V,
)
    ensures
        rewritten(objects, Seq::empty(), from, to) <==> to == from,
        rewritten(objects, seq![rewrite], from, to) <==> turns(objects, rewrite, from, to),
        rewritten_once(objects, rewrite, from, to) <==> turns(objects, rewrite, from, to),
{
    let one = seq![rewrite];
    assert(one.drop_last() =~= Seq::empty());
    assert(one.last() == rewrite);
    assert(rewritten_once(objects, rewrite, from, to) <==> turns(objects, rewrite, from, to));
    assert(rewritten(objects, one.drop_last(), from, from));
    if turns(objects, rewrite, from, to) {
        assert(rewritten_once(objects, one.last(), from, to));
        assert(rewritten(objects, one, from, to));
    }
    if rewritten(objects, one, from, to) {
        let between = choose|between: V| #[trigger]
            rewritten_once(objects, one.last(), between, to) && rewritten(
                objects,
                one.drop_last(),
                from,
                between,
            );
        assert(between == from);
    }
}

/// Rewrites are applied in their order, and none is passed over: the result of two lists, one
/// behind the other, is the result of the second list on the result of the first one.
pub proof fn rewrites_are_applied_in_order<V, O: Objects<V>>(
    objects: &O,
    a: Seq<FetchRewriteView>,
    b: Seq<FetchRewriteView>,
    from: V,
    to: V,
)
    ensures
        rewritten(objects, a + b, from, to) <==> exists|between: V| #[trigger]
            rewritten(objects, a, from, between) && rewritten(objects, b, between, to),
    decreases b.len(),
{
    let all = a + b;
    if b.len() == 0 {
        assert(all =~= a);
        if rewritten(objects, all, from, to) {
            assert(rewritten(objects, a, from, to) && rewritten(objects, b, to, to));
        }
    } else {
        let shorter = b.drop_last();
        assert(all.drop_last() =~= a + shorter);
        assert(all.last() == b.last());
        if rewritten(objects, all, from, to) {
            let last = choose|last: V| #[trigger]
                rewritten_once(objects, all.last(), last, to) && rewritten(
                    objects,
                    all.drop_last(),
                    from,
                    last,
                );
            rewrites_are_applied_in_order(objects, a, shorter, from, last);
            let between = choose|between: V| #[trigger]
                rewritten(objects, a, from, between) && rewritten(objects, shorter, between, last);
            assert(rewritten_once(objects, b.last(), last, to));
            assert(rewritten(objects, b, between, to));
            assert(rewritten(objects, a, from, between));
        }
        if exists|between: V| #[trigger]
            rewritten(objects, a, from, between) && rewritten(objects, b, between, to) {
            let between = choose|between: V| #[trigger]
                rewritten(objects, a, from, between) && rewritten(objects, b, between, to);
            let last = choose|last: V| #[trigger]
                rewritten_once(objects, b.last(), last, to) && rewritten(
                    objects,
                    b.drop_last(),
                    between,
                    last,
                );
            rewrites_are_applied_in_order(objects, a, shorter, from, last);
            assert(rewritten_once(objects, all.last(), last, to));
            assert(rewritten(objects, all.drop_last(), from, last));
            assert(rewritten(objects, all, from, to));
        }
    }
}

/// Whether objects are the stages of one object under rewrites: each rewrite, in their order, turns
/// the object before it into the one behind it.
pub open spec fn stages<V, O: Objects<V>>(
    objects: &O,
    rewrites: Seq<FetchRewriteView>,
    chain: Seq<V>,
) -> bool {
    &&& chain.len() == rewrites.len() + 1
    &&& forall|k: int|
        0 <= k < rewrites.len() ==> turns(objects, #[trigger] rewrites[k], chain[k], chain[k + 1])
}

/// Every rewrite of a list is applied once and in its place: there is an object behind each of
/// them, from the one at the start to the one at the end.
pub proof fn every_rewrite_is_applied<V, O: Objects<V>>(
    objects: &O,
    rewrites: Seq<FetchRewriteView>,
    from: V,
    to: V,
) -> (chain: Seq<V>)
    requires
        rewritten(objects, rewrites, from, to),
    ensures
        stages(objects, rewrites, chain),
        chain[0] == from,
        chain[rewrites.len() as int] == to,
    decreases rewrites.len(),
{
    if rewrites.len() == 0 {
        seq![from]
    } else {
        let shorter = rewrites.drop_last();
        let between = choose|between: V| #[trigger]
            rewritten_once(objects, rewrites.last(), between, to) && rewritten(
                objects,
                shorter,
                from,
                between,
            );
        let earlier = every_rewrite_is_applied(objects, shorter, from, between);
        let chain = earlier.push(to);
        one_rewrite_is_applied_once(objects, rewrites.last(), between, to);
        assert forall|k: int| 0 <= k < rewrites.len() implies turns(
            objects,
            #[trigger] rewrites[k],
            chain[k],
            chain[k + 1],
        ) by {
            if k < shorter.len() {
                assert(turns(objects, shorter[k], earlier[k], earlier[k + 1]));
            }
        }
        chain
    }
}

/// Rewrites are read one by one, in their order, and each of them whole.
pub proof fn rewrites_are_read_in_order(rewrites: Seq<FetchRewrite>, list: Vec<FetchRewrite>, k: int)
    requires
        0 <= k < rewrites.len(),
    ensures
        rewrites_view(rewrites).len() == rewrites.len(),
        rewrites_view(rewrites)[k] == rewrites[k]@,
        opt_rewrites_view(Some(list)) == Some(rewrites_view(list@)),
        opt_rewrites_view(None) is None,
        rewrites[k] matches FetchRewrite::ValueSetter(setter) ==> rewrites[k]@
            == (FetchRewriteView::ValueSetter {
            path: setter.path@,
            set_value_to: setter.set_value_to@,
        }),
        rewrites[k] matches FetchRewrite::KeyRenamer(renamer) ==> rewrites[k]@
            == (FetchRewriteView::KeyRenamer {
            path: renamer.path@,
            rename_key_to: renamer.rename_key_to@,
        }),
{
}

/// What is asked for in the place of an object is the object itself where there are no rewrites,
/// and else what all of them make of a copy of it.
pub proof fn objects_are_asked_for_after_all_rewrites<V, O: Objects<V>>(
    objects: &O,
    rewrites: Option<Seq<FetchRewriteView>>,
    object: V,
    changed: V,
)
    requires
        prepared_from(objects, rewrites, object, changed),
    ensures
        rewrites is None ==> changed == object,
        rewrites is Some ==> exists|copy: V| #[trigger]
            call_ensures(O::copy, (objects, &object), copy) && rewritten(
                objects,
                rewrites->Some_0,
                copy,
                changed,
            ),
{
}

/// The rewrites that are stored for an ID are all those of one fetch with that ID: of the last one
/// that has any, also where that is an empty list. For an ID without such a fetch none are stored.
pub proof fn rewrites_are_stored_by_id(nodes: Seq<FetchNode>, n: int, id: i64)
    requires
        0 <= n <= nodes.len(),
    ensures
        rewrites_by_id(nodes, n).contains_key(id) <==> exists|k: int|
            0 <= k < n && (#[trigger] nodes[k]).id == id && nodes[k].output_rewrites is Some,
        rewrites_by_id(nodes, n).contains_key(id) ==> exists|k: int|
            0 <= k < n && (#[trigger] nodes[k]).id == id && nodes[k].output_rewrites is Some
                && rewrites_by_id(nodes, n)[id] == rewrites_view(
                nodes[k].output_rewrites->Some_0@,
            ) && forall|j: int|
                k < j < n && (#[trigger] nodes[j]).id == id ==> nodes[j].output_rewrites is None,
    decreases n,
{
    if n > 0 {
        rewrites_are_stored_by_id(nodes, n - 1, id);
        let last = nodes[n - 1];
        if last.output_rewrites is Some && last.id == id {
            assert(nodes[n - 1].id == id);
        } else {
            assert(rewrites_by_id(nodes, n).contains_key(id) == rewrites_by_id(
                nodes,
                n - 1,
            ).contains_key(id));
            if rewrites_by_id(nodes, n).contains_key(id) {
                let k = choose|k: int|
                    0 <= k < n - 1 && (#[trigger] nodes[k]).id == id
                        && nodes[k].output_rewrites is Some && rewrites_by_id(nodes, n - 1)[id]
                        == rewrites_view(nodes[k].output_rewrites->Some_0@) && forall|j: int|
                        k < j < n - 1 && (#[trigger] nodes[j]).id == id
                            ==> nodes[j].output_rewrites is None;
                assert(nodes[k].id == id);
            }
        }
    }
}

/// What is stored for a fetch is found by its ID; where nothing is stored there are no rewrites.
pub proof fn rewrites_are_found_by_id(storage: Map<i64, Seq<FetchRewriteView>>, id: i64)
    ensures
        stored_for(storage, id) is Some <==> storage.contains_key(id),
        storage.contains_key(id) ==> stored_for(storage, id)->Some_0 == storage[id] && rewrites_of(
            storage,
            id,
        ) == storage[id],
        !storage.contains_key(id) ==> rewrites_of(storage, id).len() == 0,
{
}

/// An error keeps all that it says. Only where it does not name a subgraph, or a path, it gets that
/// of the fetch that met it.
pub proof fn errors_keep_what_they_say(
    error: ErrorView,
    subgraph_name: Option<Seq<char>>,
    affected_path: Option<Seq<char>>,
)
    ensures
        ({
            let told = attributed(error, subgraph_name, affected_path);
            &&& told.message == error.message
            &&& told.locations == error.locations
            &&& told.path == error.path
            &&& told.extensions.code == error.extensions.code
            &&& error.extensions.service_name is Some ==> told.extensions.service_name
                == error.extensions.service_name
            &&& error.extensions.service_name is None ==> told.extensions.service_name
                == subgraph_name
            &&& error.extensions.affected_path is Some ==> told.extensions.affected_path
                == error.extensions.affected_path
            &&& error.extensions.affected_path is None ==> told.extensions.affected_path
                == affected_path
        }),
        text_or(subgraph_name, affected_path) == (if subgraph_name is Some {
            subgraph_name
        } else {
            affected_path
        }),
{
}

/// An error is one of an entity exactly where its path starts with the field of the entities and an
/// index; then that is the index of the entity.
pub proof fn entities_are_told_by_their_index(
    path: Seq<GraphQLErrorPathSegment>,
    index: usize,
)
    ensures
        entity_index(None) is None,
        entity_index(Some(path)) == Some(index) <==> {
            &&& path.len() >= 2
            &&& path[0] is String
            &&& path[0]->String_0@ == "_entities"@
            &&& path[1] == GraphQLErrorPathSegment::Index(index)
        },
{
}

/// An error of an entity whose places are known is reported once at each of them, in their order,
/// with the place before the rest of its path and nothing else changed. Any other error is reported
/// as it is.
pub proof fn errors_are_reported_at_all_places(
    error: ErrorView,
    known: Map<usize, Seq<Place>>,
)
    ensures
        ({
            let index = entity_index(error.path);
            let all = at_places(error, known);
            if index is Some && known.contains_key(index->Some_0) {
                let here = known[index->Some_0];
                &&& all.len() == here.len()
                &&& forall|k: int|
                    0 <= k < here.len() ==> {
                        &&& (#[trigger] all[k]).message == error.message
                        &&& all[k].locations == error.locations
                        &&& all[k].extensions == error.extensions
                        &&& all[k].path is Some
                        &&& all[k].path->Some_0.len() == here[k].len() + error.path->Some_0.len() - 2
                        &&& forall|j: int|
                            0 <= j < here[k].len() ==> all[k].path->Some_0[j] == here[k][j]
                        &&& forall|j: int|
                            2 <= j < error.path->Some_0.len() ==> all[k].path->Some_0[here[k].len()
                                + j - 2] == #[trigger] error.path->Some_0[j]
                    }
            } else {
                &&& all.len() == 1
                &&& all[0] == error
            }
        }),
{
    let index = entity_index(error.path);
    let all = at_places(error, known);
    if index is Some && known.contains_key(index->Some_0) {
        let here = known[index->Some_0];
        assert forall|k: int| 0 <= k < here.len() implies all[k] == #[trigger] at_place(
            error,
            here[k],
        ) by {}
        assert forall|k: int| 0 <= k < here.len() implies {
            &&& (#[trigger] all[k]).path is Some
            &&& all[k].path->Some_0.len() == here[k].len() + error.path->Some_0.len() - 2
            &&& forall|j: int| 0 <= j < here[k].len() ==> all[k].path->Some_0[j] == here[k][j]
            &&& forall|j: int|
                2 <= j < error.path->Some_0.len() ==> all[k].path->Some_0[here[k].len() + j - 2]
                    == #[trigger] error.path->Some_0[j]
        } by {
            let rest = error.path->Some_0.skip(2);
            assert(all[k] == at_place(error, here[k]));
            assert(all[k].path->Some_0 == here[k] + rest);
            assert forall|j: int|
                2 <= j < error.path->Some_0.len() implies all[k].path->Some_0[here[k].len() + j - 2]
                == #[trigger] error.path->Some_0[j] by {
                assert(rest[j - 2] == error.path->Some_0[j]);
            }
        }
    }
}

/// An error that names no entity is reported once, with what is known of where it comes from; one
/// of an entity is reported at the places of the entity, where they are known.
pub proof fn an_error_is_reported_with_where_it_comes_from(
    error: ErrorView,
    subgraph_name: Seq<char>,
    affected_path: Option<Seq<char>>,
    known: Map<usize, Seq<Place>>,
)
    ensures
        reported(seq![error], 1, subgraph_name, affected_path, None) == seq![
            attributed(error, Some(subgraph_name), affected_path),
        ],
        reported(seq![error], 1, subgraph_name, affected_path, Some(known)) == at_places(
            attributed(error, Some(subgraph_name), affected_path),
            known,
        ),
        reported(Seq::<ErrorView>::empty(), 0, subgraph_name, affected_path, Some(known)).len() == 0,
        reported(Seq::<ErrorView>::empty(), 0, subgraph_name, affected_path, None).len() == 0,
{
    reveal_with_fuel(reported, 2);
    let told = attributed(error, Some(subgraph_name), affected_path);
    assert(Seq::<ErrorView>::empty() + seq![told] =~= seq![told]);
    assert(Seq::<ErrorView>::empty() + at_places(told, known) =~= at_places(told, known));
}

/// Errors are reported one after the other: the report of two lists, one behind the other, is the
/// report of the first one and then that of the second one.
pub proof fn errors_are_reported_in_order(
    a: Seq<ErrorView>,
    b: Seq<ErrorView>,
    subgraph_name: Seq<char>,
    affected_path: Option<Seq<char>>,
    known: Option<Map<usize, Seq<Place>>>,
)
    ensures
        reported(a + b, (a + b).len() as int, subgraph_name, affected_path, known) == reported(
            a,
            a.len() as int,
            subgraph_name,
            affected_path,
            known,
        ) + reported(b, b.len() as int, subgraph_name, affected_path, known),
    decreases b.len(),
{
    let all = a + b;
    let of_a = reported(a, a.len() as int, subgraph_name, affected_path, known);
    if b.len() == 0 {
        assert(all =~= a);
        assert(of_a + Seq::<ErrorView>::empty() =~= of_a);
    } else {
        let shorter = b.drop_last();
        errors_are_reported_in_order(a, shorter, subgraph_name, affected_path, known);
        lemma_report_of_a_prefix(
            a + shorter,
            all,
            all.len() - 1,
            subgraph_name,
            affected_path,
            known,
        );
        lemma_report_of_a_prefix(shorter, b, b.len() - 1, subgraph_name, affected_path, known);
        assert(all[all.len() - 1] == b[b.len() - 1]);
        assert(reported(all, all.len() as int, subgraph_name, affected_path, known) =~= of_a
            + reported(b, b.len() as int, subgraph_name, affected_path, known));
    }
}

proof fn lemma_report_of_a_prefix(
    a: Seq<ErrorView>,
    b: Seq<ErrorView>,
    n: int,
    subgraph_name: Seq<char>,
    affected_path: Option<Seq<char>>,
    known: Option<Map<usize, Seq<Place>>>,
)
    requires
        0 <= n <= a.len() <= b.len(),
        forall|k: int| 0 <= k < a.len() ==> a[k] == b[k],
    ensures
        reported(a, n, subgraph_name, affected_path, known) == reported(
            b,
            n,
            subgraph_name,
            affected_path,
            known,
        ),
    decreases n,
{
    if n > 0 {
        lemma_report_of_a_prefix(a, b, n - 1, subgraph_name, affected_path, known);
    }
}

/// The report of an answer is that of all its errors, by its subgraph and its path; an answer
/// without errors reports nothing.
pub proof fn reports_are_those_of_all_errors(
    report: ErrorReport,
    known: Option<Map<usize, Seq<Place>>>,
)
    ensures
        report.errors is None ==> report.reports(known).len() == 0,
        report.errors matches Some(errors) ==> report.reports(known) == reported(
            errors_view(errors@),
            errors@.len() as int,
            report.subgraph_name@,
            opt_path_text(report.affected_path),
            known,
        ),
{
}

/// Errors, places and paths are read as they are, in their order.
pub proof fn places_are_read_as_they_are(
    errors: Seq<GraphQLError>,
    paths: Seq<GraphQLErrorPath>,
    map: EntityPaths,
    path: GraphQLErrorPath,
    flat: &FlattenNodePath,
    k: int,
    entity: usize,
)
    ensures
        errors_view(errors).len() == errors.len(),
        0 <= k < errors.len() ==> errors_view(errors)[k] == errors[k]@,
        places(paths).len() == paths.len(),
        0 <= k < paths.len() ==> places(paths)[k] == paths[k].segments@,
        entity_places(map@).contains_key(entity) <==> map@.contains_key(entity),
        map@.contains_key(entity) ==> entity_places(map@)[entity] == places(map@[entity]@),
        opt_entity_places(Some(map)) == Some(entity_places(map@)),
        opt_entity_places(None) is None,
        opt_place(Some(path)) == Some(path.segments@),
        opt_place(None) is None,
        opt_path_text(Some(flat)) == Some(path_text(flat@, flat@.len() as int)),
        opt_path_text(None) is None,
{
}

/// A batch starts with the bracket that opens the list and nothing else.
pub proof fn a_batch_starts_empty(hash: u64)
    ensures
        BatchView::start().written == seq![OPEN_BRACKET],
        BatchView::start().hashes.len() == 0,
        !BatchView::start().index_of.contains_key(hash),
        BatchView::start().index == 0,
        BatchView::start().is_first(),
        OPEN_BRACKET == 0x5b,
        CLOSE_BRACKET == 0x5d,
{
}

/// Of an object that is met its hash is kept behind the others, unless it is null. Nothing else
/// changes.
pub proof fn objects_are_met_by_their_hash(batch: BatchView, hash: u64, is_null: bool)
    ensures
        ({
            let met = batch.met(hash, is_null);
            &&& is_null ==> met.hashes == batch.hashes
            &&& !is_null ==> met.hashes.len() == batch.hashes.len() + 1
                && met.hashes[batch.hashes.len() as int] == hash && forall|k: int|
                0 <= k < batch.hashes.len() ==> met.hashes[k] == #[trigger] batch.hashes[k]
            &&& met.written == batch.written
            &&& met.index_of == batch.index_of
            &&& met.index == batch.index
        }),
{
}

/// Of an object that is projected all that is written is kept behind the rest, and it is counted.
/// Where it has a representation, and only there, its hash gets the count before it.
pub proof fn objects_are_projected_whole(
    batch: BatchView,
    hash: u64,
    written: Seq<u8>,
    is_projected: bool,
    other: u64,
)
    requires
        0 <= batch.index <= usize::MAX,
    ensures
        ({
            let next = batch.projected(hash, written, is_projected);
            &&& next.written == batch.written + written
            &&& next.hashes == batch.hashes
            &&& next.index == batch.index + 1
            &&& is_projected ==> next.index_of.contains_key(hash) && next.index_of[hash]
                == batch.index
            &&& !is_projected || other != hash ==> (next.index_of.contains_key(other)
                <==> batch.index_of.contains_key(other)) && (batch.index_of.contains_key(other)
                ==> next.index_of[other] == batch.index_of[other])
        }),
{
}

/// An object is the first one exactly where no hash was asked for. There is room for what can be
/// held together with the bracket that closes the list and can be counted.
pub proof fn the_first_object_is_told(batch: BatchView, more: nat)
    ensures
        batch.is_first() <==> forall|hash: u64| !batch.index_of.contains_key(hash),
        batch.has_room(more) <==> batch.written.len() + more < isize::MAX && batch.index
            < usize::MAX,
{
    if forall|hash: u64| !batch.index_of.contains_key(hash) {
        assert(batch.index_of =~= Map::<u64, usize>::empty());
    }
}

/// An object is gathered by the hash that it has as it stands. Where that was asked for, it is met
/// and no more. Else it is projected, after the input rewrites and as the first one only where
/// nothing was asked for; all that is written for it is kept where there is room, and nothing of it
/// where there is none.
pub proof fn objects_are_gathered_by_their_hash<V, O: Objects<V>>(
    objects: &O,
    rewrites: Option<Seq<FetchRewriteView>>,
    required: SelectionSet,
    object: V,
    before: BatchView,
    after: BatchView,
    fits: bool,
) -> (seen: (u64, bool))
    requires
        gathered(objects, rewrites, required, object, before, after, fits),
    ensures
        call_ensures(O::hash, (objects, &object, &required), seen.0),
        call_ensures(O::is_null, (objects, &object), seen.1),
        before.index_of.contains_key(seen.0) ==> fits && after == before.met(seen.0, seen.1),
        !before.index_of.contains_key(seen.0) ==> exists|projection: Projection, changed: V|
            #![trigger call_ensures(
                O::project,
                (objects, &required, &changed, before.is_first()),
                projection,
            )]
            call_ensures(
                O::project,
                (objects, &required, &changed, before.is_first()),
                projection,
            ) && prepared_from(objects, rewrites, object, changed) && (fits <==> before.has_room(
                projection.bytes@.len(),
            )) && (fits ==> after == before.met(seen.0, seen.1).projected(
                seen.0,
                projection.bytes@,
                projection.is_projected,
            )) && (!fits ==> after == before.met(seen.0, seen.1)),
{
    let (hash, is_null) = choose|hash: u64, is_null: bool|
        #![trigger gathered_as(
            objects,
            rewrites,
            required,
            object,
            before,
            after,
            fits,
            hash,
            is_null,
        )]
        call_ensures(O::hash, (objects, &object, &required), hash) && call_ensures(
            O::is_null,
            (objects, &object),
            is_null,
        ) && gathered_as(
            objects,
            rewrites,
            required,
            object,
            before,
            after,
            fits,
            hash,
            is_null,
        );
    if !before.index_of.contains_key(hash) {
        let met = before.met(hash, is_null);
        let projection = choose|projection: Projection| #[trigger]
            written_for(objects, rewrites, required, object, before.is_first(), projection) && fits
                == met.has_room(projection.bytes@.len()) && after == (if fits {
                met.projected(hash, projection.bytes@, projection.is_projected)
            } else {
                met
            });
        let changed = choose|changed: V| #[trigger]
            call_ensures(
                O::project,
                (objects, &required, &changed, before.is_first()),
                projection,
            ) && prepared_from(objects, rewrites, object, changed);
        assert(call_ensures(
            O::project,
            (objects, &required, &changed, before.is_first()),
            projection,
        ));
    }
    (hash, is_null)
}

/// The entity of an object is looked for where its hash was asked for, and it is there only where
/// the answer is long enough.
pub proof fn entities_are_looked_for_by_hash(merge: MergeView, k: int, count: int, entity: usize)
    requires
        0 <= k < merge.hashes.len(),
    ensures
        merge.entity_of(k) == Some(entity) <==> merge.index_of.contains_key(merge.hashes[k])
            && merge.index_of[merge.hashes[k]] == entity,
        merge.entity_within(k, count) == Some(entity) <==> merge.index_of.contains_key(
            merge.hashes[k],
        ) && merge.index_of[merge.hashes[k]] == entity && entity < count,
{
}

/// Meeting an object goes on to the next one. Where places are kept, the object has an entity and
/// its place is known, the place is added behind the others of that entity; nothing else changes.
pub proof fn places_are_kept_by_entity(
    merge: MergeView,
    place: Option<Place>,
    entity: usize,
    other: usize,
)
    ensures
        merge.met(place).index == merge.index + 1,
        merge.met(place).hashes == merge.hashes,
        merge.met(place).index_of == merge.index_of,
        merge.met(place).places is Some <==> merge.places is Some,
        merge.entity_of(merge.index) is None || place is None || merge.places is None ==> merge.met(
            place,
        ).places == merge.places,
        merge.places is Some && place is Some && merge.entity_of(merge.index) == Some(entity) ==> ({
            let before = merge.places->Some_0;
            let after = merge.met(place).places->Some_0;
            &&& after.contains_key(entity)
            &&& before.contains_key(entity) ==> after[entity] == before[entity].push(
                place->Some_0,
            )
            &&& !before.contains_key(entity) ==> after[entity] == seq![place->Some_0]
            &&& other != entity ==> (after.contains_key(other) <==> before.contains_key(other))
                && (before.contains_key(other) ==> after[other] == before[other])
        }),
{
    if merge.places is Some && place is Some {
        let before = merge.places->Some_0;
        assert(with_place(before, entity, place->Some_0).contains_key(entity));
        assert(Seq::<Place>::empty().push(place->Some_0) =~= seq![place->Some_0]);
    }
}

/// Objects that are met one after the other are met in their order.
pub proof fn objects_are_met_one_by_one(merge: MergeView, at: Seq<Place>, n: int)
    requires
        0 < n <= at.len(),
    ensures
        merge.met_all(at, 0) == merge,
        merge.met_all(at, n) == merge.met_all(at, n - 1).met(Some(at[n - 1])),
{
}

/// An object with an entity is completed by a copy of just that entity, whichever it is; one
/// without stays as it is.
pub proof fn objects_are_completed_by_their_entity<V, O: Objects<V>>(
    objects: &O,
    entities: Seq<V>,
    entity: Option<usize>,
    target: V,
    completed: V,
)
    requires
        completed_by(objects, entities, entity, target, completed),
    ensures
        entity is None ==> completed == target,
        entity is Some ==> exists|copy: V| #[trigger]
            call_ensures(O::copy, (objects, &entities[entity->Some_0 as int]), copy)
                && call_ensures(O::merge, (objects, target, copy), completed),
{
}

/// What a job that came back holds.
pub proof fn jobs_hold_their_answer<'exec, D, H>(
    fetch_node_id: i64,
    subgraph_name: &'exec str,
    response: SubgraphResponse<D, H>,
    flatten_node_path: &'exec FlattenNodePath,
    representation_hashes: Vec<u64>,
    representation_hash_to_index: std::collections::HashMap<u64, usize>,
)
    ensures
        ({
            let job = ExecutionJob::Fetch { fetch_node_id, subgraph_name, response };
            &&& job.id() == fetch_node_id
            &&& job.subgraph() == subgraph_name@
            &&& job.answer() == response
            &&& job.path() is None
        }),
        ({
            let job = ExecutionJob::FlattenFetch {
                fetch_node_id,
                subgraph_name,
                response,
                flatten_node_path,
                representation_hashes,
                representation_hash_to_index,
            };
            &&& job.id() == fetch_node_id
            &&& job.subgraph() == subgraph_name@
            &&& job.answer() == response
            &&& job.path() == Some(flatten_node_path)
        }),
{
}

/// The bytes of an answer are stored behind the others, where it has any.
pub proof fn answers_are_stored_in_order<'exec, D, H>(
    responses: Seq<Vec<u8>>,
    job: ExecutionJob<'exec, D, H>,
)
    ensures
        job.answer().bytes is None ==> stored(responses, job) == responses,
        job.answer().bytes matches Some(bytes) ==> {
            &&& stored(responses, job).len() == responses.len() + 1
            &&& stored(responses, job)[responses.len() as int] == bytes
            &&& forall|k: int|
                0 <= k < responses.len() ==> stored(responses, job)[k] == #[trigger] responses[k]
        },
{
}

/// The answer of a job is handed on whole: its data and errors, under the ID, the subgraph and the
/// path of the job. That of a fetch goes into the root. That of a flattened fetch goes into the
/// objects whose hashes were asked for, from the first one on; places are kept exactly where it has
/// errors.
pub proof fn answers_are_handed_on_whole<'exec, D, H>(
    received: ReceivedData<'exec, D>,
    job: ExecutionJob<'exec, D, H>,
)
    requires
        received_from(received, job),
    ensures
        received.fetch_node_id == job.id(),
        received.data == job.answer().data,
        received.report.subgraph_name@ == job.subgraph(),
        received.report.affected_path == job.path(),
        received.report.errors == job.answer().errors,
        merges_job(received.merge, job),
        job is Fetch ==> received.merge is Root,
        job is FlattenFetch ==> {
            &&& received.merge is Entities
            &&& *received.merge->Entities_0 == *job->flatten_node_path
            &&& received.merge->Entities_1@.hashes == job->representation_hashes@
            &&& received.merge->Entities_1@.index_of == job->representation_hash_to_index@
            &&& received.merge->Entities_1@.index == 0
            &&& received.merge->Entities_1@.places is Some <==> job.answer().errors is Some
            &&& received.merge->Entities_1@.places matches Some(kept) ==> forall|entity: usize|
                !kept.contains_key(entity)
        },
{
}

/// The data of a fetch is merged into the response after all output rewrites.
pub proof fn data_is_merged_after_all_rewrites<V, O: Objects<V>>(
    objects: &O,
    rewrites: Seq<FetchRewriteView>,
    data: V,
    response: V,
    merged: V,
)
    requires
        merged_at_root(objects, rewrites, data, response, merged),
    ensures
        exists|changed: V| #[trigger]
            call_ensures(O::merge, (objects, response, changed), merged) && rewritten(
                objects,
                rewrites,
                data,
                changed,
            ),
{
}

/// A walk completes the objects of the response, on the path of the fetch, with all entities of the
/// answer, each of them after all output rewrites. It starts at the root where places are kept.
pub proof fn entities_are_merged_after_all_rewrites<V, O: Objects<V>>(
    walk: EntityWalk<V>,
    objects: &O,
    rewrites: Seq<FetchRewriteView>,
    entities: Seq<V>,
    received: ReceivedData<V>,
    response: V,
    k: int,
)
    requires
        walks_with(walk, objects, rewrites, entities, received, response),
    ensures
        walk.response == response,
        received.merge == Merge::Entities(walk.path, walk.merge),
        walk.entities@.len() == entities.len(),
        0 <= k < entities.len() ==> rewritten(objects, rewrites, entities[k], walk.entities@[k]),
        walk.error_path is Some <==> received.report.errors is Some,
        walk.error_path is Some ==> walk.error_path->Some_0.segments@.len() == 0,
        walk.report == received.report,
{
    assert(each_rewritten(objects, rewrites, entities, walk.entities@));
}

} // verus!
