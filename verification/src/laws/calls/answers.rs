//! Calls that ask for entities, and that handle what comes back.

use std::collections::HashMap;
use vstd::prelude::*;

use crate::ast::SelectionSet;
use crate::context::{
    affected_path_text, opt_path_text, reported, rewrites_of, ExecutionContext,
    OutputRewritesStorage, ResponsesStorage,
};
use crate::entities::{
    opt_place, BatchView, EntityMerge, RepresentationBatch, Representations, CLOSE_BRACKET,
    OPEN_BRACKET,
};
use crate::errors::{
    at_places, attributed, entity_places, errors_view, places, EntityPaths, ErrorView, GraphQLError,
    GraphQLErrorPath, GraphQLErrorPathSegment,
};
use crate::jobs::{
    walks_with, ErrorReport, ExecutionJob, Merge, Merged, ReceivedData, SubgraphResponse,
};
use crate::laws::answers::{
    an_error_is_reported_with_where_it_comes_from, answers_are_handed_on_whole,
    entities_are_merged_after_all_rewrites, errors_are_reported_at_all_places,
    every_rewrite_is_applied, objects_are_gathered_by_their_hash, places_are_kept_by_entity,
    rewrites_are_found_by_id, rewrites_are_stored_by_id, stages, the_first_object_is_told, turns,
};
use crate::objects::{prepared_from, rewrite_all, rewrite_each, rewritten, Objects, Projection};
use crate::paths::path_text;
use crate::plan_nodes::{
    opt_rewrites_view, rewrites_view, FetchNode, FetchRewrite, FlattenNodePath, QueryPlan,
};

verus! {

/// Whether an object comes out of another one when every one of some rewrites, of whichever kind,
/// is applied once and in their order.
pub open spec fn comes_out<V, O: Objects<V>>(
    objects: &O,
    rewrites: Seq<FetchRewrite>,
    from: V,
    to: V,
) -> bool {
    exists|chain: Seq<V>| #[trigger]
        stages(objects, rewrites_view(rewrites), chain) && chain[0] == from
            && chain[rewrites.len() as int] == to
}

/// All rewrites are applied to an object, each of them once and in their order.
pub proof fn all_rewrites_are_applied<V, O: Objects<V>>(
    objects: &O,
    rewrites: &[FetchRewrite],
    object: V,
    changed: V,
)
    requires
        call_ensures(rewrite_all::<V, O>, (objects, rewrites, object), changed),
    ensures
        comes_out(objects, rewrites@, object, changed),
        rewrites@.len() == 0 ==> changed == object,
        rewrites@.len() == 1 ==> exists|given: FetchRewrite|
            given@ == rewrites@[0]@ && #[trigger] call_ensures(
                O::rewrite,
                (objects, &given, object),
                changed,
            ),
{
    let views = rewrites_view(rewrites@);
    let chain = every_rewrite_is_applied(objects, views, object, changed);
    assert(stages(objects, views, chain));
    if rewrites@.len() == 1 {
        assert(views[0] == rewrites@[0]@);
        assert(turns(objects, views[0], chain[0], chain[1]));
        let given = choose|given: FetchRewrite|
            given@ == rewrites@[0]@ && #[trigger] call_ensures(
                O::rewrite,
                (objects, &given, object),
                changed,
            );
        assert(call_ensures(O::rewrite, (objects, &given, object), changed));
    }
}

/// All rewrites are applied to each of some entities.
pub proof fn all_rewrites_are_applied_to_each<V, O: Objects<V>>(
    objects: &O,
    rewrites: &[FetchRewrite],
    entities: Vec<V>,
    changed: Vec<V>,
    k: int,
)
    requires
        call_ensures(rewrite_each::<V, O>, (objects, rewrites, entities), changed),
    ensures
        changed@.len() == entities@.len(),
        0 <= k < entities@.len() ==> comes_out(objects, rewrites@, entities@[k], changed@[k]),
{
    if 0 <= k < entities@.len() {
        let views = rewrites_view(rewrites@);
        let last = changed@[k];
        let chain = every_rewrite_is_applied(objects, views, entities@[k], last);
        assert(stages(objects, views, chain));
    }
}

/// The output rewrites of a plan are found by the ID of their fetch: all those of the last fetch
/// with that ID that has any; and none for an ID without such a fetch.
pub proof fn output_rewrites_are_found_by_id<'a>(
    plan: &QueryPlan,
    storage: OutputRewritesStorage,
    other: &'a OutputRewritesStorage,
    id: i64,
    found: Option<&'a [FetchRewrite]>,
)
    requires
        call_ensures(OutputRewritesStorage::from_query_plan, (plan,), storage),
        *other == storage,
        call_ensures(OutputRewritesStorage::get, (other, id), found),
    ensures
        found is Some <==> exists|k: int|
            0 <= k < plan.fetches().len() && (#[trigger] plan.fetches()[k]).id == id
                && plan.fetches()[k].output_rewrites is Some,
        found is Some ==> exists|k: int|
            0 <= k < plan.fetches().len() && (#[trigger] plan.fetches()[k]).id == id
                && plan.fetches()[k].output_rewrites is Some && rewrites_view(found->Some_0@)
                == rewrites_view(plan.fetches()[k].output_rewrites->Some_0@) && forall|j: int|
                k < j < plan.fetches().len() && (#[trigger] plan.fetches()[j]).id == id
                    ==> plan.fetches()[j].output_rewrites is None,
{
    rewrites_are_stored_by_id(plan.fetches(), plan.fetches().len() as int, id);
}

/// A context starts with the errors that were there before, the output rewrites of the plan and no
/// answers. One that starts from nothing has none of these.
pub proof fn contexts_start_with_what_is_known(
    plan: &QueryPlan,
    errors: Vec<GraphQLError>,
    context: ExecutionContext,
    storage: OutputRewritesStorage,
    empty: ExecutionContext,
    id: i64,
)
    requires
        call_ensures(ExecutionContext::new, (plan, errors), context),
        call_ensures(OutputRewritesStorage::from_query_plan, (plan,), storage),
        call_ensures(<ExecutionContext as Default>::default, (), empty),
    ensures
        context.errors == errors,
        context.output_rewrites@ == storage@,
        context.response_storage.responses@.len() == 0,
        empty.errors@.len() == 0,
        !empty.output_rewrites@.contains_key(id),
        empty.response_storage.responses@.len() == 0,
{
}

/// Answers are kept in the order in which they come.
pub proof fn answers_are_kept_in_order(storage: &mut ResponsesStorage, response: Vec<u8>)
    requires
        call_ensures(ResponsesStorage::add_response, (storage, response), ()),
    ensures
        final(storage).responses@.len() == old(storage).responses@.len() + 1,
        final(storage).responses@[old(storage).responses@.len() as int] == response,
        forall|k: int|
            0 <= k < old(storage).responses@.len() ==> final(storage).responses@[k]
                == #[trigger] old(storage).responses@[k],
{
}

/// The path of a flattened fetch is written where there is one.
pub proof fn affected_paths_are_written(path: Option<&FlattenNodePath>, text: Option<String>)
    requires
        call_ensures(affected_path_text, (path,), text),
    ensures
        text is Some <==> path is Some,
        text is Some ==> text->Some_0@ == path_text(path->Some_0@, path->Some_0@.len() as int),
{
}

/// An error keeps all that it says, and gets the subgraph and the path only where it names none.
pub proof fn errors_are_attributed_where_they_name_nothing(
    error: GraphQLError,
    subgraph_name: Option<String>,
    affected_path: Option<String>,
    told: GraphQLError,
)
    requires
        call_ensures(GraphQLError::attribute, (error, subgraph_name, affected_path), told),
    ensures
        told.message@ == error.message@,
        told@.locations == error@.locations,
        told@.path == error@.path,
        told@.extensions.code == error@.extensions.code,
        error.extensions.service_name is Some ==> told@.extensions.service_name
            == error@.extensions.service_name,
        error.extensions.service_name is None ==> (told.extensions.service_name is Some
            <==> subgraph_name is Some) && (subgraph_name is Some
            ==> told.extensions.service_name->Some_0@ == subgraph_name->Some_0@),
        error.extensions.affected_path is Some ==> told@.extensions.affected_path
            == error@.extensions.affected_path,
        error.extensions.affected_path is None ==> (told.extensions.affected_path is Some
            <==> affected_path is Some) && (affected_path is Some
            ==> told.extensions.affected_path->Some_0@ == affected_path->Some_0@),
{
}

/// The entity of an error is told exactly where its path starts with the field of the entities and
/// an index.
pub proof fn entities_of_errors_are_told(error: &GraphQLError, index: Option<usize>)
    requires
        call_ensures(GraphQLError::entity_index, (error,), index),
    ensures
        ({
            let segments = error.path->Some_0.segments@;
            &&& index is Some <==> error.path is Some && segments.len() >= 2 && segments[0] is String
                && segments[0]->String_0@ == "_entities"@ && segments[1] is Index
            &&& index is Some ==> segments[1] == GraphQLErrorPathSegment::Index(index->Some_0)
        }),
{
}

/// An error of an entity whose places are known becomes one error for each place: the place, then
/// the rest of its path. Any other error stays as it is.
pub proof fn errors_are_put_at_their_places(
    error: GraphQLError,
    known: &EntityPaths,
    index: Option<usize>,
    all: Vec<GraphQLError>,
)
    requires
        call_ensures(GraphQLError::entity_index, (&error,), index),
        call_ensures(GraphQLError::normalize_entity_error, (error, known), all),
    ensures
        index is None || !known@.contains_key(index->Some_0) ==> all@.len() == 1 && all@[0]@
            == error@,
        index is Some && known@.contains_key(index->Some_0) ==> {
            let here = known@[index->Some_0]@;
            &&& all@.len() == here.len()
            &&& forall|k: int|
                0 <= k < here.len() ==> {
                    &&& (#[trigger] all@[k])@.message == error@.message
                    &&& all@[k]@.locations == error@.locations
                    &&& all@[k]@.extensions == error@.extensions
                    &&& all@[k]@.path == Some(
                        here[k].segments@ + error.path->Some_0.segments@.skip(2),
                    )
                }
        },
{
    errors_are_reported_at_all_places(error@, entity_places(known@));
    let views = errors_view(all@);
    assert(views.len() == all@.len());
    assert forall|k: int| 0 <= k < all@.len() implies views[k] == (#[trigger] all@[k])@ by {}
    if index is Some && known@.contains_key(index->Some_0) {
        let here = known@[index->Some_0]@;
        assert(entity_places(known@)[index->Some_0].len() == here.len());
        assert forall|k: int| 0 <= k < here.len() implies (#[trigger] all@[k])@.path == Some(
            here[k].segments@ + error.path->Some_0.segments@.skip(2),
        ) by {
            assert(views[k] == all@[k]@);
            let place = entity_places(known@)[index->Some_0][k];
            assert(place == here[k].segments@);
            assert(all@[k]@.path->Some_0 =~= place + error.path->Some_0.segments@.skip(2));
        }
        assert forall|k: int| 0 <= k < here.len() implies (#[trigger] all@[k])@.message
            == error@.message && all@[k]@.locations == error@.locations && all@[k]@.extensions
            == error@.extensions by {
            assert(views[k] == all@[k]@);
        }
    } else {
        assert(views[0] == all@[0]@);
    }
}

/// The errors of an answer are reported behind those that were there, all of them and in their
/// order. Where no places are known, each is reported just once, with its subgraph and path. An
/// answer without errors changes nothing.
pub proof fn errors_are_handled_all<'a>(
    context: &mut ExecutionContext,
    subgraph_name: &'a str,
    affected_path: Option<&'a FlattenNodePath>,
    errors: Option<Vec<GraphQLError>>,
    known: Option<EntityPaths>,
    k: int,
)
    requires
        call_ensures(
            ExecutionContext::handle_errors,
            (context, subgraph_name, affected_path, errors, known),
            (),
        ),
    ensures
        final(context).output_rewrites == old(context).output_rewrites,
        final(context).response_storage == old(context).response_storage,
        final(context).errors@.len() >= old(context).errors@.len(),
        0 <= k < old(context).errors@.len() ==> final(context).errors@[k]@ == old(
            context
        ).errors@[k]@,
        errors is None ==> final(context).errors@.len() == old(context).errors@.len(),
        errors is Some && known is None ==> {
            let first = old(context).errors@.len();
            let told = final(context).errors@[first + k];
            let error = errors->Some_0@[k];
            &&& final(context).errors@.len() == first + errors->Some_0@.len()
            &&& 0 <= k < errors->Some_0@.len() ==> {
                &&& told@.message == error@.message
                &&& told@.locations == error@.locations
                &&& told@.path == error@.path
                &&& told@.extensions.code == error@.extensions.code
                &&& told@.extensions.service_name == (if error.extensions.service_name is Some {
                    error@.extensions.service_name
                } else {
                    Some(subgraph_name@)
                })
                &&& told@.extensions.affected_path == (if error.extensions.affected_path is Some {
                    error@.extensions.affected_path
                } else {
                    opt_path_text(affected_path)
                })
            }
        },
{
    let before = errors_view(old(context).errors@);
    let after = errors_view(final(context).errors@);
    assert(before.len() == old(context).errors@.len());
    assert(after.len() == final(context).errors@.len());
    if 0 <= k < before.len() {
        assert(before[k] == old(context).errors@[k]@);
        assert(after[k] == final(context).errors@[k]@);
    }
    if errors is Some && known is None {
        let given = errors_view(errors->Some_0@);
        let n = given.len() as int;
        lemma_each_reported_once(given, n, subgraph_name@, opt_path_text(affected_path), k);
        if 0 <= k < n {
            assert(given[k] == errors->Some_0@[k]@);
            assert(after[before.len() + k] == final(context).errors@[before.len() + k]@);
        }
    }
}

proof fn lemma_each_reported_once(
    errors: Seq<ErrorView>,
    n: int,
    subgraph_name: Seq<char>,
    affected_path: Option<Seq<char>>,
    k: int,
)
    requires
        0 <= n <= errors.len(),
    ensures
        reported(errors, n, subgraph_name, affected_path, None).len() == n,
        0 <= k < n ==> reported(errors, n, subgraph_name, affected_path, None)[k] == attributed(
            errors[k],
            Some(subgraph_name),
            affected_path,
        ),
    decreases n,
{
    if n > 0 {
        lemma_each_reported_once(errors, n - 1, subgraph_name, affected_path, k);
    }
}

/// An error is reported at the places of its entity, where they are known, with its subgraph and
/// path.
pub proof fn errors_are_handled_at_their_places<'a>(
    context: &mut ExecutionContext,
    subgraph_name: &'a str,
    affected_path: Option<&'a FlattenNodePath>,
    errors: Vec<GraphQLError>,
    known: EntityPaths,
)
    requires
        call_ensures(
            ExecutionContext::handle_errors,
            (context, subgraph_name, affected_path, Some(errors), Some(known)),
            (),
        ),
        errors@.len() == 1,
    ensures
        errors_view(final(context).errors@) == errors_view(old(context).errors@) + at_places(
            attributed(errors@[0]@, Some(subgraph_name@), opt_path_text(affected_path)),
            entity_places(known@),
        ),
{
    let one = errors_view(errors@);
    assert(one =~= seq![errors@[0]@]);
    an_error_is_reported_with_where_it_comes_from(
        errors@[0]@,
        subgraph_name@,
        opt_path_text(affected_path),
        entity_places(known@),
    );
}

/// A report hands on the errors of an answer, with the places that the walk over the objects kept.
pub proof fn reports_use_the_places_of_the_walk<'a>(
    context: &mut ExecutionContext,
    report: ErrorReport<'a>,
    merged: Option<EntityMerge>,
)
    requires
        call_ensures(ExecutionContext::report, (context, report, merged), ()),
    ensures
        final(context).output_rewrites == old(context).output_rewrites,
        final(context).response_storage == old(context).response_storage,
        report.errors is None ==> errors_view(final(context).errors@) == errors_view(
            old(context).errors@,
        ),
        report.errors matches Some(errors) ==> errors_view(final(context).errors@) == errors_view(
            old(context).errors@,
        ) + reported(
            errors_view(errors@),
            errors@.len() as int,
            report.subgraph_name@,
            opt_path_text(report.affected_path),
            match merged {
                Some(merge) => merge@.places,
                None => None,
            },
        ),
{
    let before = errors_view(old(context).errors@);
    assert(before + Seq::<ErrorView>::empty() =~= before);
}

/// A batch starts with the bracket that opens a list, and holds nothing else.
pub proof fn batches_start_empty(batch: RepresentationBatch, hash: u64)
    requires
        call_ensures(RepresentationBatch::new, (), batch),
    ensures
        batch@.written == seq![OPEN_BRACKET],
        batch@.hashes.len() == 0,
        !batch@.index_of.contains_key(hash),
        batch@.index == 0,
{
}

/// An object that is met is to be projected exactly where no object with its hash was; it is the
/// first one where none was asked for. Its hash is kept unless it is null.
pub proof fn objects_with_a_known_hash_are_not_asked_for_again(
    batch: &mut RepresentationBatch,
    hash: u64,
    is_null: bool,
    project: Option<bool>,
)
    requires
        call_ensures(RepresentationBatch::visit, (batch, hash, is_null), project),
    ensures
        project is None <==> old(batch)@.index_of.contains_key(hash),
        project is Some ==> (project->Some_0 <==> forall|other: u64|
            !old(batch)@.index_of.contains_key(other)),
        is_null ==> final(batch)@.hashes == old(batch)@.hashes,
        !is_null ==> final(batch)@.hashes == old(batch)@.hashes.push(hash),
        final(batch)@.written == old(batch)@.written,
        final(batch)@.index_of == old(batch)@.index_of,
        final(batch)@.index == old(batch)@.index,
{
    the_first_object_is_told(old(batch)@, 0);
}

/// What is written for an object is kept whole, and the object is counted whether it has a
/// representation or not. Its hash gets the count before it exactly where it has one.
pub proof fn objects_are_added_whole(
    batch: &mut RepresentationBatch,
    hash: u64,
    written: &[u8],
    is_projected: bool,
)
    requires
        call_ensures(RepresentationBatch::add, (batch, hash, written, is_projected), ()),
        0 <= old(batch)@.index <= usize::MAX,
    ensures
        final(batch)@.written == old(batch)@.written + written@,
        final(batch)@.hashes == old(batch)@.hashes,
        final(batch)@.index == old(batch)@.index + 1,
        is_projected ==> final(batch)@.index_of == old(batch)@.index_of.insert(
            hash,
            old(batch)@.index as usize,
        ),
        !is_projected ==> final(batch)@.index_of == old(batch)@.index_of,
{
}

/// Whether a batch gathers an object with a hash, null or not. One whose hash was asked for is kept
/// by its hash alone. Any other one is projected, after the input rewrites, and what is written is
/// kept whole where there is room for it.
pub open spec fn gathers<V, O: Objects<V>>(
    objects: &O,
    rewrites: Option<Vec<FetchRewrite>>,
    required: SelectionSet,
    object: V,
    before: BatchView,
    after: BatchView,
    fits: bool,
    hash: u64,
    is_null: bool,
) -> bool {
    &&& after.hashes == (if is_null {
        before.hashes
    } else {
        before.hashes.push(hash)
    })
    &&& before.index_of.contains_key(hash) || !fits ==> {
        &&& after.written == before.written
        &&& after.index_of == before.index_of
        &&& after.index == before.index
    }
    &&& before.index_of.contains_key(hash) ==> fits
    &&& !before.index_of.contains_key(hash) ==> exists|projection: Projection, changed: V|
        #![trigger call_ensures(
            O::project,
            (objects, &required, &changed, before.is_first()),
            projection,
        )]
        call_ensures(
            O::project,
            (objects, &required, &changed, before.is_first()),
            projection,
        ) && prepared_from(objects, opt_rewrites_view(rewrites), object, changed) && (fits
            <==> before.written.len() + projection.bytes@.len() < isize::MAX && before.index
            < usize::MAX) && (fits ==> {
            &&& after.written == before.written + projection.bytes@
            &&& after.index == before.index + 1
            &&& projection.is_projected ==> after.index_of == before.index_of.insert(
                hash,
                before.index as usize,
            )
            &&& !projection.is_projected ==> after.index_of == before.index_of
        })
}

/// An object is gathered by the hash that it has before any rewrite.
pub proof fn objects_are_gathered<V, O: Objects<V>>(
    batch: &mut RepresentationBatch,
    objects: &O,
    rewrites: &Option<Vec<FetchRewrite>>,
    required: &SelectionSet,
    object: &V,
    fits: bool,
)
    requires
        call_ensures(
            RepresentationBatch::gather::<V, O>,
            (batch, objects, rewrites, required, object),
            fits,
        ),
    ensures
        exists|hash: u64, is_null: bool|
            call_ensures(O::hash, (objects, object, required), hash) && call_ensures(
                O::is_null,
                (objects, object),
                is_null,
            ) && #[trigger] gathers(
                objects,
                *rewrites,
                *required,
                *object,
                old(batch)@,
                final(batch)@,
                fits,
                hash,
                is_null,
            ),
{
    let (hash, is_null) = objects_are_gathered_by_their_hash(
        objects,
        opt_rewrites_view(*rewrites),
        *required,
        *object,
        old(batch)@,
        final(batch)@,
        fits,
    );
    assert(gathers(
        objects,
        *rewrites,
        *required,
        *object,
        old(batch)@,
        final(batch)@,
        fits,
        hash,
        is_null,
    ));
}

/// A copy of an object that is asked for after rewrites went through all of them.
pub proof fn copies_go_through_all_rewrites<V, O: Objects<V>>(
    objects: &O,
    rewrites: Vec<FetchRewrite>,
    object: V,
    changed: V,
)
    requires
        prepared_from(objects, opt_rewrites_view(Some(rewrites)), object, changed),
    ensures
        exists|copy: V| #[trigger]
            call_ensures(O::copy, (objects, &object), copy) && comes_out(
                objects,
                rewrites@,
                copy,
                changed,
            ),
{
    let views = rewrites_view(rewrites@);
    let copy = choose|copy: V| #[trigger]
        call_ensures(O::copy, (objects, &object), copy) && rewritten(
            objects,
            views,
            copy,
            changed,
        );
    let chain = every_rewrite_is_applied(objects, views, copy, changed);
    assert(stages(objects, views, chain));
    assert(comes_out(objects, rewrites@, copy, changed));
}

/// The representations are given where anything was asked for: all that was written, closed by its
/// bracket, with all hashes.
pub proof fn batches_give_all_they_hold(
    batch: RepresentationBatch,
    given: Option<Representations>,
)
    requires
        call_ensures(RepresentationBatch::finish, (batch,), given),
    ensures
        given is Some <==> exists|hash: u64| batch@.index_of.contains_key(hash),
        given is Some ==> {
            &&& given->Some_0.bytes@ == batch@.written.push(CLOSE_BRACKET)
            &&& given->Some_0.hashes@ == batch@.hashes
            &&& given->Some_0.hash_to_index@ == batch@.index_of
        },
{
    if forall|hash: u64| !batch@.index_of.contains_key(hash) {
        assert(batch@.index_of =~= Map::<u64, usize>::empty());
    }
    if given is Some {
        assert(given->Some_0.bytes@ =~= batch@.written.push(CLOSE_BRACKET));
    }
}

/// A merge starts at the first object, with all that was asked for; it keeps places exactly where
/// there are errors.
pub proof fn merges_start_at_the_first_object(
    hashes: Vec<u64>,
    index_of: HashMap<u64, usize>,
    has_errors: bool,
    merge: EntityMerge,
    entity: usize,
)
    requires
        call_ensures(EntityMerge::new, (hashes, index_of, has_errors), merge),
    ensures
        merge@.hashes == hashes@,
        merge@.index_of == index_of@,
        merge@.index == 0,
        merge@.places is Some <==> has_errors,
        has_errors ==> !merge@.places->Some_0.contains_key(entity),
{
}

/// A merge goes on as long as there is an object left.
pub proof fn merges_go_on_to_the_last_object(merge: &EntityMerge, more: bool)
    requires
        call_ensures(EntityMerge::has_next, (merge,), more),
    ensures
        more <==> merge@.index < merge@.hashes.len(),
{
}

/// An object finds its entity by its hash, wherever it stands. Its place is kept behind those of
/// the same entity.
pub proof fn objects_find_their_entity(
    merge: &mut EntityMerge,
    path: Option<GraphQLErrorPath>,
    entity: Option<usize>,
    other: usize,
)
    requires
        call_ensures(EntityMerge::visit, (merge, path), entity),
        0 <= old(merge)@.index < old(merge)@.hashes.len(),
    ensures
        ({
            let hash = old(merge)@.hashes[old(merge)@.index];
            &&& entity is Some <==> old(merge)@.index_of.contains_key(hash)
            &&& entity is Some ==> entity->Some_0 == old(merge)@.index_of[hash]
        }),
        final(merge)@.index == old(merge)@.index + 1,
        final(merge)@.hashes == old(merge)@.hashes,
        final(merge)@.index_of == old(merge)@.index_of,
        final(merge)@.places is Some <==> old(merge)@.places is Some,
        entity is None || path is None ==> final(merge)@.places == old(merge)@.places,
        old(merge)@.places is Some && entity is Some && path is Some ==> {
            let before = old(merge)@.places->Some_0;
            let after = final(merge)@.places->Some_0;
            let index = entity->Some_0;
            &&& after.contains_key(index)
            &&& before.contains_key(index) ==> after[index] == before[index].push(
                path->Some_0.segments@,
            )
            &&& !before.contains_key(index) ==> after[index] == seq![path->Some_0.segments@]
            &&& other != index ==> (after.contains_key(other) <==> before.contains_key(other)) && (
            before.contains_key(other) ==> after[other] == before[other])
        },
{
    let index = if entity is Some {
        entity->Some_0
    } else {
        0
    };
    places_are_kept_by_entity(old(merge)@, opt_place(path), index, other);
}

/// An object is completed by a copy of just that entity that its hash stands for, where the answer
/// holds it; else it stays as it is.
pub proof fn objects_are_completed<V, O: Objects<V>>(
    merge: &mut EntityMerge,
    objects: &O,
    entities: &Vec<V>,
    target: V,
    path: Option<GraphQLErrorPath>,
    completed: V,
)
    requires
        call_ensures(
            EntityMerge::complete::<V, O>,
            (merge, objects, entities, target, path),
            completed,
        ),
        0 <= old(merge)@.index < old(merge)@.hashes.len(),
    ensures
        ({
            let hash = old(merge)@.hashes[old(merge)@.index];
            let index = old(merge)@.index_of[hash];
            if old(merge)@.index_of.contains_key(hash) && index < entities@.len() {
                exists|copy: V| #[trigger]
                    call_ensures(O::copy, (objects, &entities@[index as int]), copy)
                        && call_ensures(O::merge, (objects, target, copy), completed)
            } else {
                completed == target
            }
        }),
        final(merge)@.index == old(merge)@.index + 1,
        final(merge)@.hashes == old(merge)@.hashes,
        final(merge)@.index_of == old(merge)@.index_of,
{
}

/// The places that a merge kept are given whole.
pub proof fn merges_give_their_places(
    merge: EntityMerge,
    paths: Option<EntityPaths>,
    entity: usize,
)
    requires
        call_ensures(EntityMerge::finish, (merge,), paths),
    ensures
        paths is Some <==> merge@.places is Some,
        paths is Some ==> {
            let kept = merge@.places->Some_0;
            &&& paths->Some_0@.contains_key(entity) <==> kept.contains_key(entity)
            &&& kept.contains_key(entity) ==> {
                &&& paths->Some_0@[entity]@.len() == kept[entity].len()
                &&& forall|k: int|
                    0 <= k < kept[entity].len() ==> (#[trigger] paths->Some_0@[entity]@[k]).segments@
                        == kept[entity][k]
            }
        },
{
    if paths is Some && paths->Some_0@.contains_key(entity) {
        let listed = paths->Some_0@[entity]@;
        assert(merge@.places->Some_0[entity] == places(listed));
        assert forall|k: int| 0 <= k < listed.len() implies (#[trigger] listed[k]).segments@
            == merge@.places->Some_0[entity][k] by {
            assert(places(listed)[k] == listed[k]@);
        }
    }
}

/// A job holds the ID and the subgraph of its fetch, its answer, and what was asked for.
pub proof fn jobs_are_those_of_their_fetch<'a, D, H>(
    node: &'a FetchNode,
    path: &'a FlattenNodePath,
    response: SubgraphResponse<D, H>,
    hashes: Vec<u64>,
    index_of: HashMap<u64, usize>,
    fetch: ExecutionJob<'a, D, H>,
    flatten: ExecutionJob<'a, D, H>,
)
    requires
        call_ensures(ExecutionJob::of_fetch, (node, response), fetch),
        call_ensures(ExecutionJob::of_flatten, (node, path, response, hashes, index_of), flatten),
    ensures
        fetch matches ExecutionJob::Fetch { fetch_node_id, subgraph_name, response: answer }
            && fetch_node_id == node.id && subgraph_name@ == node.service_name@ && answer == response,
        flatten matches ExecutionJob::FlattenFetch {
            fetch_node_id,
            subgraph_name,
            response: answer,
            flatten_node_path,
            representation_hashes,
            representation_hash_to_index,
        } && fetch_node_id == node.id && subgraph_name@ == node.service_name@ && answer == response
            && *flatten_node_path == *path && representation_hashes == hashes
            && representation_hash_to_index == index_of,
{
}

/// A job tells what it holds, of whichever kind it is.
pub proof fn jobs_tell_what_they_hold<'a, D, H>(
    job: &ExecutionJob<'a, D, H>,
    answer: &SubgraphResponse<D, H>,
    id: i64,
    name: &'a str,
    path: Option<&'a FlattenNodePath>,
)
    requires
        call_ensures(ExecutionJob::response_ref, (job,), answer),
        call_ensures(ExecutionJob::fetch_node_id, (job,), id),
        call_ensures(ExecutionJob::subgraph_name, (job,), name),
        call_ensures(ExecutionJob::affected_path, (job,), path),
    ensures
        *job matches ExecutionJob::Fetch { fetch_node_id, subgraph_name, response } ==> id
            == fetch_node_id && name@ == subgraph_name@ && *answer == response && path is None,
        *job matches ExecutionJob::FlattenFetch {
            fetch_node_id,
            subgraph_name,
            response,
            flatten_node_path,
            ..
        } ==> id == fetch_node_id && name@ == subgraph_name@ && *answer == response && path
            == Some(flatten_node_path),
{
}

/// The error of a job that failed is added behind the others, and nothing is received. The answer
/// of a job that succeeded is received whole, its bytes are stored, and an error in its headers is
/// added.
pub proof fn what_became_of_a_job_is_taken_whole<'a, D, H>(
    context: &mut ExecutionContext,
    job: Result<ExecutionJob<'a, D, H>, GraphQLError>,
    header_error: Option<GraphQLError>,
    received: Option<ReceivedData<'a, D>>,
)
    requires
        call_ensures(
            ExecutionContext::process_job_result::<D, H>,
            (context, job, header_error),
            received,
        ),
    ensures
        final(context).output_rewrites == old(context).output_rewrites,
        received is Some <==> job is Ok,
        job matches Err(error) ==> final(context).errors@ == old(context).errors@.push(error)
            && final(context).response_storage == old(context).response_storage,
        job matches Ok(job) ==> {
            let data = received->Some_0;
            let responses = old(context).response_storage.responses@;
            &&& header_error is None ==> final(context).errors@ == old(context).errors@
            &&& header_error is Some ==> final(context).errors@ == old(context).errors@.push(
                header_error->Some_0,
            )
            &&& job.answer().bytes is None ==> final(context).response_storage.responses@
                == responses
            &&& job.answer().bytes is Some ==> final(context).response_storage.responses@
                == responses.push(job.answer().bytes->Some_0)
            &&& data.fetch_node_id == job.id()
            &&& data.data == job.answer().data
            &&& data.report.subgraph_name@ == job.subgraph()
            &&& data.report.affected_path == job.path()
            &&& data.report.errors == job.answer().errors
            &&& data.merge is Root <==> job is Fetch
            &&& job is FlattenFetch ==> {
                &&& *data.merge->Entities_0 == *job->flatten_node_path
                &&& data.merge->Entities_1@.hashes == job->representation_hashes@
                &&& data.merge->Entities_1@.index_of == job->representation_hash_to_index@
                &&& data.merge->Entities_1@.index == 0
                &&& data.merge->Entities_1@.places is Some <==> job.answer().errors is Some
            }
        },
{
    if let Ok(job) = job {
        answers_are_handed_on_whole(received->Some_0, job);
    }
}

/// Whether an object comes out of another one by the rewrites that are stored for a fetch, all of
/// them and in their order.
pub open spec fn comes_out_stored<V, O: Objects<V>>(
    objects: &O,
    storage: OutputRewritesStorage,
    id: i64,
    from: V,
    to: V,
) -> bool {
    if storage@.contains_key(id) {
        exists|chain: Seq<V>| #[trigger]
            stages(objects, storage@[id], chain) && chain[0] == from
                && chain[storage@[id].len() as int] == to
    } else {
        to == from
    }
}

proof fn lemma_comes_out_stored<V, O: Objects<V>>(
    objects: &O,
    storage: OutputRewritesStorage,
    id: i64,
    from: V,
    to: V,
)
    requires
        rewritten(
            objects,
            rewrites_of(storage@, id),
            from,
            to,
        ),
    ensures
        comes_out_stored(objects, storage, id, from, to),
{
    rewrites_are_found_by_id(storage@, id);
    if storage@.contains_key(id) {
        let chain = every_rewrite_is_applied(objects, storage@[id], from, to);
        assert(stages(objects, storage@[id], chain));
    }
}

/// The data of a fetch is merged into the response after all output rewrites that are stored for
/// the fetch. The errors of the answer are reported.
pub proof fn data_is_merged_into_the_root<'a, V, O: Objects<V>>(
    context: &mut ExecutionContext,
    objects: &O,
    received: ReceivedData<'a, V>,
    response: V,
    merged: Merged<'a, V>,
)
    requires
        call_ensures(
            ExecutionContext::merge::<V, O>,
            (context, objects, received, response),
            merged,
        ),
        received.merge is Root,
    ensures
        final(context).output_rewrites == old(context).output_rewrites,
        final(context).response_storage == old(context).response_storage,
        merged is Done,
        exists|changed: V| #[trigger]
            call_ensures(O::merge, (objects, response, changed), merged->Done_0) && comes_out_stored(
                objects,
                old(context).output_rewrites,
                received.fetch_node_id,
                received.data,
                changed,
            ),
        errors_view(final(context).errors@) == errors_view(old(context).errors@)
            + received.report.reports(None),
{
    let storage = old(context).output_rewrites;
    let rewrites = rewrites_of(storage@, received.fetch_node_id);
    let changed = choose|changed: V| #[trigger]
        call_ensures(O::merge, (objects, response, changed), merged->Done_0)
            && rewritten(objects, rewrites, received.data, changed);
    lemma_comes_out_stored(objects, storage, received.fetch_node_id, received.data, changed);
    assert(call_ensures(O::merge, (objects, response, changed), merged->Done_0));
}

/// The entities of a flattened fetch, all of them and each after all output rewrites that are
/// stored for the fetch, are made ready for the walk over the objects. Where the answer has no
/// entities, the response stays as it is and the errors of the answer are reported.
pub proof fn entities_are_made_ready<'a, V, O: Objects<V>>(
    context: &mut ExecutionContext,
    objects: &O,
    received: ReceivedData<'a, V>,
    response: V,
    merged: Merged<'a, V>,
) -> (found: Option<Vec<V>>)
    requires
        call_ensures(
            ExecutionContext::merge::<V, O>,
            (context, objects, received, response),
            merged,
        ),
        received.merge is Entities,
    ensures
        final(context).output_rewrites == old(context).output_rewrites,
        final(context).response_storage == old(context).response_storage,
        call_ensures(O::entities, (objects, received.data), found),
        found is None ==> merged is Done && merged->Done_0 == response && errors_view(
            final(context).errors@,
        ) == errors_view(old(context).errors@) + received.report.reports(None),
        found matches Some(entities) ==> {
            &&& merged is Walk
            &&& errors_view(final(context).errors@) == errors_view(old(context).errors@)
            &&& merged->Walk_0.response == response
            &&& received.merge == Merge::Entities(merged->Walk_0.path, merged->Walk_0.merge)
            &&& merged->Walk_0.report == received.report
            &&& merged->Walk_0.error_path is Some <==> received.report.errors is Some
            &&& merged->Walk_0.error_path is Some
                ==> merged->Walk_0.error_path->Some_0.segments@.len() == 0
            &&& merged->Walk_0.entities@.len() == entities@.len()
            &&& forall|k: int|
                0 <= k < entities@.len() ==> comes_out_stored(
                    objects,
                    old(context).output_rewrites,
                    received.fetch_node_id,
                    #[trigger] entities@[k],
                    merged->Walk_0.entities@[k],
                )
        },
{
    let storage = old(context).output_rewrites;
    let rewrites = rewrites_of(storage@, received.fetch_node_id);
    let found = choose|found: Option<Vec<V>>| #[trigger]
        call_ensures(O::entities, (objects, received.data), found) && (match found {
            Some(entities) => merged is Walk && walks_with(
                merged->Walk_0,
                objects,
                rewrites,
                entities@,
                received,
                response,
            ),
            None => merged == Merged::<'a, V>::Done(response),
        });
    if let Some(entities) = found {
        let walk = merged->Walk_0;
        entities_are_merged_after_all_rewrites(
            walk,
            objects,
            rewrites,
            entities@,
            received,
            response,
            0,
        );
        assert forall|k: int| 0 <= k < entities@.len() implies comes_out_stored(
            objects,
            storage,
            received.fetch_node_id,
            #[trigger] entities@[k],
            walk.entities@[k],
        ) by {
            entities_are_merged_after_all_rewrites(
                walk,
                objects,
                rewrites,
                entities@,
                received,
                response,
                k,
            );
            lemma_comes_out_stored(
                objects,
                storage,
                received.fetch_node_id,
                entities@[k],
                walk.entities@[k],
            );
        }
    }
    found
}

} // verus!
