//! Fetches for entities: what is asked of a subgraph, and where its answers go.
//!
//! A [`RepresentationBatch`] gathers the representations of the objects that a path leads to, those
//! with equal hashes once. An [`EntityMerge`] walks the same objects again when the answer is
//! there, and tells for each of them which entity of the answer completes it.

use bytes::BufMut;
use std::collections::HashMap;
use vstd::prelude::*;

use crate::ast::SelectionSet;
use crate::errors::{entity_places, places, EntityPaths, GraphQLErrorPath, Place};
use crate::objects::{prepared_from, rewrite_all, Objects, Projection};
use crate::plan_nodes::{opt_rewrites_view, FetchRewrite, FetchRewriteView};

verus! {

/// `[`
pub const OPEN_BRACKET: u8 = 0x5b;

/// `]`
pub const CLOSE_BRACKET: u8 = 0x5d;

/// Appends bytes to a buffer with `bytes::BufMut::put`. A buffer holds at most `isize::MAX` bytes;
/// beyond that the call panics.
#[verifier::external_body]
fn put(buffer: &mut Vec<u8>, source: &[u8])
    requires
        old(buffer)@.len() + source@.len() <= isize::MAX,
    ensures
        final(buffer)@ == old(buffer)@ + source@,
{
    buffer.put(source);
}

/// What a batch has gathered.
#[verifier::ext_equal]
pub struct BatchView {
    /// The JSON array of the representations, without its end.
    pub written: Seq<u8>,
    /// The hashes of the objects that are not null, in their order.
    pub hashes: Seq<u64>,
    /// For each hash that was asked for, how many objects were projected before, with a
    /// representation or without one.
    pub index_of: Map<u64, usize>,
    /// How many objects were projected, with a representation or without one.
    pub index: int,
}

impl BatchView {
    /// A batch without objects.
    pub open spec fn start() -> BatchView {
        BatchView { written: seq![OPEN_BRACKET], hashes: Seq::empty(), index_of: Map::empty(), index: 0 }
    }

    /// An object was met.
    pub open spec fn met(self, hash: u64, is_null: bool) -> BatchView {
        BatchView {
            hashes: if is_null {
                self.hashes
            } else {
                self.hashes.push(hash)
            },
            ..self
        }
    }

    /// An object was projected, successfully or not, with what was written for it. It is counted
    /// either way.
    pub open spec fn projected(self, hash: u64, written: Seq<u8>, is_projected: bool) -> BatchView {
        BatchView {
            written: self.written + written,
            index_of: if is_projected {
                self.index_of.insert(hash, self.index as usize)
            } else {
                self.index_of
            },
            index: self.index + 1,
            ..self
        }
    }

    /// Whether nothing was asked for yet.
    pub open spec fn is_first(self) -> bool {
        self.index_of == Map::<u64, usize>::empty()
    }

    /// Whether some more bytes and the end of the array can be held.
    pub open spec fn has_room(self, more: nat) -> bool {
        self.written.len() + more < isize::MAX && self.index < usize::MAX
    }

    /// No two hashes share an index, and the next index is free.
    pub open spec fn consistent(self) -> bool {
        &&& 0 <= self.index <= usize::MAX
        &&& forall|hash: u64| #[trigger]
            self.index_of.contains_key(hash) ==> self.index_of[hash] < self.index
        &&& forall|a: u64, b: u64|
            #![trigger self.index_of[a], self.index_of[b]]
            self.index_of.contains_key(a) && self.index_of.contains_key(b) && a != b
                ==> self.index_of[a] != self.index_of[b]
    }
}

/// Whether `projection` is what is written for an object: for the object itself, or for a copy of it
/// after the input rewrites.
pub open spec fn written_for<V, O: Objects<V>>(
    objects: &O,
    rewrites: Option<Seq<FetchRewriteView>>,
    required: SelectionSet,
    object: V,
    first: bool,
    projection: Projection,
) -> bool {
    exists|changed: V| #[trigger]
        call_ensures(O::project, (objects, &required, &changed, first), projection)
            && prepared_from(objects, rewrites, object, changed)
}

/// Whether gathering an object, which has a hash and is null or not, turns a batch from `before`
/// into `after`. An object whose hash was asked for is met and no more. Any other one is projected,
/// where there is room for what is written.
pub open spec fn gathered_as<V, O: Objects<V>>(
    objects: &O,
    rewrites: Option<Seq<FetchRewriteView>>,
    required: SelectionSet,
    object: V,
    before: BatchView,
    after: BatchView,
    fits: bool,
    hash: u64,
    is_null: bool,
) -> bool {
    let met = before.met(hash, is_null);
    if before.index_of.contains_key(hash) {
        fits && after == met
    } else {
        exists|projection: Projection| #[trigger]
            written_for(objects, rewrites, required, object, before.is_first(), projection) && fits
                == met.has_room(projection.bytes@.len()) && after == (if fits {
                met.projected(hash, projection.bytes@, projection.is_projected)
            } else {
                met
            })
    }
}

/// Whether gathering an object turns a batch from `before` into `after`, see [`gathered_as`]. The
/// hash is that of the object as it stands, before any rewrite.
pub open spec fn gathered<V, O: Objects<V>>(
    objects: &O,
    rewrites: Option<Seq<FetchRewriteView>>,
    required: SelectionSet,
    object: V,
    before: BatchView,
    after: BatchView,
    fits: bool,
) -> bool {
    exists|hash: u64, is_null: bool|
        #![trigger gathered_as(
            objects,
            rewrites,
            required,
            object,
            before,
            after,
            fits,
            hash,
            is_null,
        )]
        call_ensures(O::hash, (objects, &object, &required), hash) && call_ensures(
            O::is_null,
            (objects, &object),
            is_null,
        ) && gathered_as(
            objects,
            rewrites,
            required,
            object,
            before,
            after,
            fits,
            hash,
            is_null,
        )
}

/// The representations that a subgraph is asked for.
#[derive(Debug)]
pub struct Representations {
    /// A JSON array.
    pub bytes: Vec<u8>,
    /// The hashes of the objects that are to be completed, in their order.
    pub hashes: Vec<u64>,
    /// For each hash that was asked for, how many objects were projected before, with a
    /// representation or without one. This is the position of the entity in the answer where every
    /// object that was projected before has a representation.
    pub hash_to_index: HashMap<u64, usize>,
}

/// Gathers the representations that a subgraph is asked for.
#[derive(Debug)]
pub struct RepresentationBatch {
    filtered_representations: Vec<u8>,
    representation_hashes: Vec<u64>,
    representation_hash_to_index: HashMap<u64, usize>,
    index: usize,
}

impl View for RepresentationBatch {
    type V = BatchView;

    closed spec fn view(&self) -> BatchView {
        BatchView {
            written: self.filtered_representations@,
            hashes: self.representation_hashes@,
            index_of: self.representation_hash_to_index@,
            index: self.index as int,
        }
    }
}

impl RepresentationBatch {
    /// A batch without objects.
    pub fn new() -> (batch: Self)
        ensures
            batch@ == BatchView::start(),
    {
        let mut filtered_representations: Vec<u8> = Vec::new();
        put(&mut filtered_representations, &[OPEN_BRACKET]);
        let batch = RepresentationBatch {
            filtered_representations,
            representation_hashes: Vec::new(),
            representation_hash_to_index: HashMap::new(),
            index: 0,
        };
        assert(batch@ =~= BatchView::start());
        batch
    }

    /// Meets an object. Where it is to be projected, the result says whether it is the first one;
    /// one that has the hash of an earlier object is not projected again.
    pub fn visit(&mut self, hash: u64, is_null: bool) -> (project: Option<bool>)
        ensures
            final(self)@ == old(self)@.met(hash, is_null),
            project == (if old(self)@.index_of.contains_key(hash) {
                None
            } else {
                Some(old(self)@.is_first())
            }),
    {
        if !is_null {
            self.representation_hashes.push(hash);
        }
        assert(self@ =~= old(self)@.met(hash, is_null));
        if self.representation_hash_to_index.contains_key(&hash) {
            return None;
        }
        let first = self.representation_hash_to_index.is_empty();
        assert(first ==> self@.index_of =~= Map::<u64, usize>::empty());
        Some(first)
    }

    /// Takes what was written for an object, and whether that is a representation.
    pub fn add(&mut self, hash: u64, written: &[u8], is_projected: bool)
        requires
            old(self)@.written.len() + written@.len() <= isize::MAX,
            old(self)@.index < usize::MAX,
        ensures
            final(self)@ == old(self)@.projected(hash, written@, is_projected),
    {
        put(&mut self.filtered_representations, written);
        if is_projected {
            self.representation_hash_to_index.insert(hash, self.index);
        }
        self.index += 1;
        assert(self@ =~= old(self)@.projected(hash, written@, is_projected));
    }

    /// Meets an object and gathers its representation, see [`gathered`]. The result says whether
    /// there was room for it.
    pub fn gather<V, O: Objects<V>>(
        &mut self,
        objects: &O,
        rewrites: &Option<Vec<FetchRewrite>>,
        required: &SelectionSet,
        object: &V,
    ) -> (fits: bool)
        ensures
            gathered(
                objects,
                opt_rewrites_view(*rewrites),
                *required,
                *object,
                old(self)@,
                final(self)@,
                fits,
            ),
    {
        let ghost before = self@;
        let hash = objects.hash(object, required);
        let is_null = objects.is_null(object);
        let ghost met = before.met(hash, is_null);
        let first = match self.visit(hash, is_null) {
            Some(first) => first,
            None => {
                assert(gathered_as(
                    objects,
                    opt_rewrites_view(*rewrites),
                    *required,
                    *object,
                    before,
                    self@,
                    true,
                    hash,
                    is_null,
                ));
                return true;
            },
        };
        let ghost changed: V;
        let projection = match rewrites {
            Some(input_rewrites) => {
                let copy = objects.copy(object);
                let new_object = rewrite_all(objects, input_rewrites.as_slice(), copy);
                proof {
                    changed = new_object;
                    assert(prepared_from(objects, opt_rewrites_view(*rewrites), *object, changed));
                }
                objects.project(required, &new_object, first)
            },
            None => {
                proof {
                    changed = *object;
                }
                objects.project(required, object, first)
            },
        };
        let limit: usize = isize::MAX as usize;
        let used = self.filtered_representations.len();
        let fits = used < limit && projection.bytes.len() < limit - used && self.index < usize::MAX;
        assert(fits == met.has_room(projection.bytes@.len()));
        if fits {
            self.add(hash, projection.bytes.as_slice(), projection.is_projected);
        }
        proof {
            let views = opt_rewrites_view(*rewrites);
            assert(call_ensures(O::project, (objects, required, &changed, first), projection));
            assert(written_for(objects, views, *required, *object, before.is_first(), projection));
            assert(gathered_as(
                objects,
                views,
                *required,
                *object,
                before,
                self@,
                fits,
                hash,
                is_null,
            ));
        }
        fits
    }

    /// The representations, where there are any.
    pub fn finish(self) -> (representations: Option<Representations>)
        requires
            self@.written.len() < isize::MAX,
        ensures
            match representations {
                Some(representations) => {
                    &&& self@.index_of != Map::<u64, usize>::empty()
                    &&& representations.bytes@ == self@.written + seq![CLOSE_BRACKET]
                    &&& representations.hashes@ == self@.hashes
                    &&& representations.hash_to_index@ == self@.index_of
                },
                None => self@.index_of == Map::<u64, usize>::empty(),
            },
    {
        let mut bytes = self.filtered_representations;
        put(&mut bytes, &[CLOSE_BRACKET]);
        if self.representation_hash_to_index.is_empty() {
            assert(self@.index_of =~= Map::<u64, usize>::empty());
            return None;
        }
        assert(bytes@ =~= self@.written + seq![CLOSE_BRACKET]);
        Some(
            Representations {
                bytes,
                hashes: self.representation_hashes,
                hash_to_index: self.representation_hash_to_index,
            },
        )
    }
}

/// Gathering keeps the indices of different hashes apart, and never changes one that was given.
pub proof fn indices_stay_apart(
    batch: BatchView,
    hash: u64,
    is_null: bool,
    written: Seq<u8>,
    is_projected: bool,
)
    requires
        batch.consistent(),
        !batch.index_of.contains_key(hash),
        batch.index < usize::MAX,
    ensures
        BatchView::start().consistent(),
        batch.met(hash, is_null).consistent(),
        batch.met(hash, is_null).projected(hash, written, is_projected).consistent(),
        forall|other: u64| #[trigger]
            batch.index_of.contains_key(other) ==> batch.met(hash, is_null).projected(
                hash,
                written,
                is_projected,
            ).index_of.contains_key(other) && batch.met(hash, is_null).projected(
                hash,
                written,
                is_projected,
            ).index_of[other] == batch.index_of[other],
{
}

/// As long as every object that is projected gives a representation, the index of an object is the
/// position of its representation among all of them.
pub proof fn an_index_is_a_position(batch: BatchView, hash: u64, is_null: bool, written: Seq<u8>)
    requires
        0 <= batch.index < usize::MAX,
        batch.index_of.dom().finite(),
        batch.index == batch.index_of.len(),
        !batch.index_of.contains_key(hash),
    ensures
        BatchView::start().index == BatchView::start().index_of.len(),
        batch.met(hash, is_null).projected(hash, written, true).index_of[hash]
            == batch.index_of.len(),
        batch.met(hash, is_null).projected(hash, written, true).index == batch.met(
            hash,
            is_null,
        ).projected(hash, written, true).index_of.len(),
{
}

/// Whether an entity is asked for by every object that was met and is not null.
pub open spec fn all_asked_for(batch: BatchView) -> bool {
    forall|k: int|
        0 <= k < batch.hashes.len() ==> batch.index_of.contains_key(#[trigger] batch.hashes[k])
}

/// As long as every object that is projected gives a representation, an entity is asked for by
/// every object.
pub proof fn every_object_asks_for_its_entity(
    batch: BatchView,
    hash: u64,
    is_null: bool,
    written: Seq<u8>,
)
    requires
        all_asked_for(batch),
    ensures
        all_asked_for(BatchView::start()),
        batch.index_of.contains_key(hash) ==> all_asked_for(batch.met(hash, is_null)),
        all_asked_for(batch.met(hash, is_null).projected(hash, written, true)),
{
    let met = batch.met(hash, is_null);
    let next = met.projected(hash, written, true);
    assert forall|k: int| 0 <= k < next.hashes.len() implies next.index_of.contains_key(
        #[trigger] next.hashes[k],
    ) by {
        if k < batch.hashes.len() {
            assert(next.hashes[k] == batch.hashes[k]);
        }
    }
    if batch.index_of.contains_key(hash) {
        assert forall|k: int| 0 <= k < met.hashes.len() implies met.index_of.contains_key(
            #[trigger] met.hashes[k],
        ) by {
            if k < batch.hashes.len() {
                assert(met.hashes[k] == batch.hashes[k]);
            }
        }
    }
}

/// How far the answer of an entity fetch is merged.
#[verifier::ext_equal]
pub struct MergeView {
    /// The hashes of the objects, in their order.
    pub hashes: Seq<u64>,
    /// For each hash that was asked for, where its entity is looked for in the answer.
    pub index_of: Map<u64, usize>,
    /// The next object.
    pub index: int,
    /// The places of the entities; kept where the answer has errors.
    pub places: Option<Map<usize, Seq<Place>>>,
}

/// `places` with one more place of an entity.
pub open spec fn with_place(
    places: Map<usize, Seq<Place>>,
    entity: usize,
    place: Place,
) -> Map<usize, Seq<Place>> {
    let before = if places.contains_key(entity) {
        places[entity]
    } else {
        Seq::empty()
    };
    places.insert(entity, before.push(place))
}

impl MergeView {
    /// Where the entity for the object at position `k` is looked for in the answer, where it was
    /// asked for.
    pub open spec fn entity_of(self, k: int) -> Option<usize> {
        if self.index_of.contains_key(self.hashes[k]) {
            Some(self.index_of[self.hashes[k]])
        } else {
            None
        }
    }

    /// The position of the entity that completes the object at position `k`, where the answer holds
    /// `count` entities and one of them does.
    pub open spec fn entity_within(self, k: int, count: int) -> Option<usize> {
        match self.entity_of(k) {
            Some(entity) => if entity < count {
                Some(entity)
            } else {
                None
            },
            None => None,
        }
    }

    /// The next object was met, at a place that is known or not.
    pub open spec fn met(self, place: Option<Place>) -> MergeView {
        MergeView {
            index: self.index + 1,
            places: match (self.places, self.entity_of(self.index), place) {
                (Some(places), Some(entity), Some(place)) => Some(
                    with_place(places, entity, place),
                ),
                _ => self.places,
            },
            ..self
        }
    }

    /// The objects at the first `n` of some places were met.
    pub open spec fn met_all(self, at: Seq<Place>, n: int) -> MergeView
        decreases n,
    {
        if n <= 0 || n > at.len() {
            self
        } else {
            self.met_all(at, n - 1).met(Some(at[n - 1]))
        }
    }
}

/// Whether `completed` is an object with its entity merged into it, where it has one.
pub open spec fn completed_by<V, O: Objects<V>>(
    objects: &O,
    entities: Seq<V>,
    entity: Option<usize>,
    target: V,
    completed: V,
) -> bool {
    match entity {
        Some(entity) => exists|copy: V| #[trigger]
            call_ensures(O::copy, (objects, &entities[entity as int]), copy) && call_ensures(
                O::merge,
                (objects, target, copy),
                completed,
            ),
        None => completed == target,
    }
}

/// Objects are met in turn: meeting one leads to the next, and changes nothing of which entity
/// completes which object.
pub proof fn objects_are_met_in_turn(merge: MergeView, place: Option<Place>, k: int, count: int)
    ensures
        merge.met(place).index == merge.index + 1,
        merge.met(place).hashes == merge.hashes,
        merge.met(place).entity_within(k, count) == merge.entity_within(k, count),
{
}

/// The place that a path leads to, where there is one.
pub open spec fn opt_place(path: Option<GraphQLErrorPath>) -> Option<Place> {
    match path {
        Some(path) => Some(path@),
        None => None,
    }
}

/// Walks the objects that the answer of an entity fetch completes.
#[derive(Debug)]
pub struct EntityMerge {
    representation_hashes: Vec<u64>,
    representation_hash_to_index: HashMap<u64, usize>,
    index: usize,
    entity_index_error_map: Option<EntityPaths>,
}

impl View for EntityMerge {
    type V = MergeView;

    closed spec fn view(&self) -> MergeView {
        MergeView {
            hashes: self.representation_hashes@,
            index_of: self.representation_hash_to_index@,
            index: self.index as int,
            places: match self.entity_index_error_map {
                Some(paths) => Some(entity_places(paths@)),
                None => None,
            },
        }
    }
}

impl EntityMerge {
    /// Starts at the first object. With `has_errors`, the places of the entities are kept.
    pub fn new(
        representation_hashes: Vec<u64>,
        representation_hash_to_index: HashMap<u64, usize>,
        has_errors: bool,
    ) -> (merge: Self)
        ensures
            merge@ == (MergeView {
                hashes: representation_hashes@,
                index_of: representation_hash_to_index@,
                index: 0,
                places: if has_errors {
                    Some(Map::empty())
                } else {
                    None
                },
            }),
    {
        let merge = EntityMerge {
            representation_hashes,
            representation_hash_to_index,
            index: 0,
            entity_index_error_map: if has_errors {
                Some(HashMap::new())
            } else {
                None
            },
        };
        assert(has_errors ==> merge@.places->Some_0 =~= Map::empty());
        merge
    }

    /// Whether there is another object to meet.
    pub fn has_next(&self) -> (more: bool)
        ensures
            more == (self@.index < self@.hashes.len()),
    {
        self.index < self.representation_hashes.len()
    }

    /// Meets the next object, and tells where its entity is looked for in the answer.
    pub fn visit(&mut self, error_path: Option<GraphQLErrorPath>) -> (entity: Option<usize>)
        requires
            old(self)@.index < old(self)@.hashes.len(),
        ensures
            final(self)@ == old(self)@.met(opt_place(error_path)),
            entity == old(self)@.entity_of(old(self)@.index),
    {
        let ghost before = self@;
        assert(self.index < self.representation_hashes.len());
        let hash = self.representation_hashes[self.index];
        let entity = match self.representation_hash_to_index.get(&hash) {
            Some(index) => Some(*index),
            None => None,
        };
        assert(entity == before.entity_of(before.index));
        self.index += 1;
        if let Some(entity_index) = entity {
            if let Some(error_path) = error_path {
                let mut paths_by_entity: Option<EntityPaths> = None;
                std::mem::swap(&mut paths_by_entity, &mut self.entity_index_error_map);
                if let Some(mut paths_by_entity) = paths_by_entity {
                    let ghost known = paths_by_entity@;
                    let mut error_paths = match paths_by_entity.remove(&entity_index) {
                        Some(error_paths) => error_paths,
                        None => Vec::new(),
                    };
                    let ghost earlier = error_paths@;
                    error_paths.push(error_path);
                    paths_by_entity.insert(entity_index, error_paths);
                    proof {
                        assert(places(error_paths@) =~= places(earlier).push(error_path@));
                        assert(places(Seq::<GraphQLErrorPath>::empty()) =~= Seq::empty());
                        assert(entity_places(paths_by_entity@) =~= with_place(
                            entity_places(known),
                            entity_index,
                            error_path@,
                        ));
                    }
                    self.entity_index_error_map = Some(paths_by_entity);
                }
            }
        }
        assert(self@ =~= before.met(opt_place(error_path)));
        entity
    }

    /// Meets the next object, and completes it with its entity: a copy of the entity is merged into
    /// it. An object without an entity stays as it is.
    pub fn complete<V, O: Objects<V>>(
        &mut self,
        objects: &O,
        entities: &Vec<V>,
        target: V,
        error_path: Option<GraphQLErrorPath>,
    ) -> (completed: V)
        requires
            old(self)@.index < old(self)@.hashes.len(),
        ensures
            final(self)@ == old(self)@.met(opt_place(error_path)),
            completed_by(
                objects,
                entities@,
                old(self)@.entity_within(old(self)@.index, entities@.len() as int),
                target,
                completed,
            ),
    {
        match self.visit(error_path) {
            Some(entity_index) => {
                if entity_index < entities.len() {
                    let copy = objects.copy(&entities[entity_index]);
                    objects.merge(target, copy)
                } else {
                    target
                }
            },
            None => target,
        }
    }

    /// The places of the entities, where they were kept.
    pub fn finish(self) -> (paths: Option<EntityPaths>)
        ensures
            match paths {
                Some(paths) => self@.places == Some(entity_places(paths@)),
                None => self@.places is None,
            },
    {
        self.entity_index_error_map
    }
}

/// Every object that an entity completes is listed among the places of that entity, in the order
/// of the objects, and nothing else is: place `at[k]` is listed for the entity of object `k` alone.
pub proof fn every_place_is_listed(merge: MergeView, at: Seq<Place>, n: int)
    requires
        merge.index == 0,
        merge.places == Some(Map::<usize, Seq<Place>>::empty()),
        0 <= n <= at.len(),
        n <= merge.hashes.len(),
    ensures
        merge.met_all(at, n).places is Some,
        forall|entity: usize|
            listed(merge.met_all(at, n).places->Some_0, entity) == places_of(merge, at, n, entity),
    decreases n,
{
    lemma_met_all_keeps(merge, at, n);
    if n > 0 {
        every_place_is_listed(merge, at, n - 1);
        lemma_met_all_keeps(merge, at, n - 1);
        let before = merge.met_all(at, n - 1);
        assert(before.entity_of(before.index) == merge.entity_of(n - 1));
        assert forall|entity: usize|
            listed(merge.met_all(at, n).places->Some_0, entity) == places_of(merge, at, n, entity) by {
            assert(listed(before.places->Some_0, entity) == places_of(merge, at, n - 1, entity));
        }
    }
}

proof fn lemma_met_all_keeps(merge: MergeView, at: Seq<Place>, n: int)
    requires
        0 <= n <= at.len(),
    ensures
        merge.met_all(at, n).hashes == merge.hashes,
        merge.met_all(at, n).index_of == merge.index_of,
        merge.met_all(at, n).index == merge.index + n,
    decreases n,
{
    if n > 0 {
        lemma_met_all_keeps(merge, at, n - 1);
    }
}

/// The places that are listed for an entity.
pub open spec fn listed(places: Map<usize, Seq<Place>>, entity: usize) -> Seq<Place> {
    if places.contains_key(entity) {
        places[entity]
    } else {
        Seq::empty()
    }
}

/// The places, in order, of those of the first `n` objects that an entity completes.
pub open spec fn places_of(merge: MergeView, at: Seq<Place>, n: int, entity: usize) -> Seq<Place>
    decreases n,
{
    if n <= 0 || n > at.len() {
        Seq::empty()
    } else if merge.entity_of(n - 1) == Some(entity) {
        places_of(merge, at, n - 1, entity).push(at[n - 1])
    } else {
        places_of(merge, at, n - 1, entity)
    }
}

/// When the objects of a batch are walked again, each of them finds the entity that it asked for.
pub proof fn every_object_finds_its_entity(batch: BatchView, merge: MergeView, k: int)
    requires
        all_asked_for(batch),
        merge.hashes == batch.hashes,
        merge.index_of == batch.index_of,
        0 <= k < batch.hashes.len(),
    ensures
        merge.entity_of(k) == Some(batch.index_of[batch.hashes[k]]),
{
}

/// Whether every entity that is listed has a place.
pub open spec fn all_have_places(places: Map<usize, Seq<Place>>) -> bool {
    forall|entity: usize| #[trigger] places.contains_key(entity) ==> places[entity].len() > 0
}

/// Merging lists no entity without a place.
pub proof fn listed_entities_have_places(merge: MergeView, place: Option<Place>)
    requires
        merge.places matches Some(places) ==> all_have_places(places),
    ensures
        all_have_places(Map::empty()),
        merge.met(place).places matches Some(places) ==> all_have_places(places),
{
}

} // verus!
