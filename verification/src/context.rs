//! What an execution gathers while its fetches come back.

use vstd::prelude::*;
use vstd::string::*;
use std::collections::HashMap;

use crate::ast::opt_text;
use crate::entities::all_have_places;
use crate::errors::{
    at_places, attributed, entity_places, errors_view, EntityPaths, ErrorView, GraphQLError, Place,
};
use crate::paths::path_text;
use crate::plan_nodes::{
    clone_rewrites, opt_rewrites_view, referred, rewrites_view, FetchNode, FetchRewrite,
    FetchRewriteView, FlattenNodePath, QueryPlan,
};

verus! {

/// The rewrites of the answers to fetches, by the ID of the fetch.
#[derive(Debug)]
pub struct OutputRewritesStorage {
    rewrites: HashMap<i64, Vec<FetchRewrite>>,
}

/// The output rewrites of the first `n` of some fetches, by the ID of the fetch.
pub open spec fn rewrites_by_id(nodes: Seq<FetchNode>, n: int) -> Map<i64, Seq<FetchRewriteView>>
    decreases n,
{
    if n <= 0 || n > nodes.len() {
        Map::empty()
    } else {
        let before = rewrites_by_id(nodes, n - 1);
        match nodes[n - 1].output_rewrites {
            Some(rewrites) => before.insert(nodes[n - 1].id, rewrites_view(rewrites@)),
            None => before,
        }
    }
}

impl View for OutputRewritesStorage {
    type V = Map<i64, Seq<FetchRewriteView>>;

    closed spec fn view(&self) -> Map<i64, Seq<FetchRewriteView>> {
        self.rewrites@.map_values(|rewrites: Vec<FetchRewrite>| rewrites_view(rewrites@))
    }
}

impl OutputRewritesStorage {
    /// A storage without rewrites.
    pub fn new() -> (storage: Self)
        ensures
            storage@ == Map::<i64, Seq<FetchRewriteView>>::empty(),
    {
        let storage = OutputRewritesStorage { rewrites: HashMap::new() };
        assert(storage@ =~= Map::<i64, Seq<FetchRewriteView>>::empty());
        storage
    }

    /// The output rewrites of the fetches of a plan.
    pub fn from_query_plan(query_plan: &QueryPlan) -> (storage: Self)
        requires
            query_plan.without_defer(),
        ensures
            storage@ == rewrites_by_id(query_plan.fetches(), query_plan.fetches().len() as int),
    {
        let list = query_plan.fetch_nodes();
        let ghost nodes = query_plan.fetches();
        let mut storage = Self::new();
        for i in 0..list.len()
            invariant
                referred(list@) == nodes,
                storage@ == rewrites_by_id(nodes, i as int),
        {
            let ghost before = storage@;
            let fetch = list[i];
            assert(*fetch == nodes[i as int]);
            if let Some(rewrites) = clone_rewrites(&fetch.output_rewrites) {
                storage.rewrites.insert(fetch.id, rewrites);
                assert(storage@ =~= before.insert(fetch.id, rewrites_view(rewrites@)));
            }
        }
        storage
    }

    /// The output rewrites of a fetch.
    pub fn get(&self, fetch_node_id: i64) -> (rewrites: Option<&[FetchRewrite]>)
        ensures
            match rewrites {
                Some(rewrites) => self@.contains_key(fetch_node_id) && rewrites_view(rewrites@)
                    == self@[fetch_node_id],
                None => !self@.contains_key(fetch_node_id),
            },
    {
        match self.rewrites.get(&fetch_node_id) {
            Some(rewrites) => Some(rewrites.as_slice()),
            None => None,
        }
    }
}

/// What is stored for a fetch.
pub open spec fn stored_for(
    storage: Map<i64, Seq<FetchRewriteView>>,
    id: i64,
) -> Option<Seq<FetchRewriteView>> {
    if storage.contains_key(id) {
        Some(storage[id])
    } else {
        None
    }
}

/// The output rewrites of a fetch, in their order; none where none are stored for it.
pub open spec fn rewrites_of(storage: Map<i64, Seq<FetchRewriteView>>, id: i64) -> Seq<
    FetchRewriteView,
> {
    match stored_for(storage, id) {
        Some(rewrites) => rewrites,
        None => Seq::empty(),
    }
}

/// Where no two fetches share an ID, every fetch finds its own output rewrites, and one without
/// output rewrites finds none.
pub proof fn every_fetch_finds_its_rewrites(nodes: Seq<FetchNode>, n: int, k: int)
    requires
        0 <= k < n <= nodes.len(),
        forall|i: int, j: int|
            0 <= i < j < nodes.len() ==> (#[trigger] nodes[i]).id != (#[trigger] nodes[j]).id,
    ensures
        stored_for(rewrites_by_id(nodes, n), nodes[k].id) == opt_rewrites_view(
            nodes[k].output_rewrites,
        ),
    decreases n,
{
    if k < n - 1 {
        every_fetch_finds_its_rewrites(nodes, n - 1, k);
        assert(nodes[k].id != nodes[n - 1].id);
    } else {
        lemma_only_known_ids(nodes, n - 1, nodes[k].id);
    }
}

proof fn lemma_only_known_ids(nodes: Seq<FetchNode>, n: int, id: i64)
    requires
        0 <= n <= nodes.len(),
        forall|i: int| 0 <= i < n ==> (#[trigger] nodes[i]).id != id,
    ensures
        !rewrites_by_id(nodes, n).contains_key(id),
    decreases n,
{
    if n > 0 {
        lemma_only_known_ids(nodes, n - 1, id);
        assert(nodes[n - 1].id != id);
    }
}

/// The raw answers of the subgraphs, in the order in which they came.
#[derive(Debug)]
pub struct ResponsesStorage {
    pub responses: Vec<Vec<u8>>,
}

impl ResponsesStorage {
    /// Keeps the raw answer of a subgraph.
    pub fn add_response(&mut self, response: Vec<u8>)
        ensures
            final(self).responses@ == old(self).responses@.push(response),
    {
        self.responses.push(response);
    }
}

/// What an execution gathers beside the data of the response.
#[derive(Debug)]
pub struct ExecutionContext {
    pub errors: Vec<GraphQLError>,
    pub output_rewrites: OutputRewritesStorage,
    pub response_storage: ResponsesStorage,
}

impl Default for ExecutionContext {
    fn default() -> (ctx: Self)
        ensures
            ctx.errors@.len() == 0,
            ctx.output_rewrites@ == Map::<i64, Seq<FetchRewriteView>>::empty(),
            ctx.response_storage.responses@.len() == 0,
    {
        ExecutionContext {
            errors: Vec::new(),
            output_rewrites: OutputRewritesStorage::new(),
            response_storage: ResponsesStorage { responses: Vec::new() },
        }
    }
}

/// The text of the path of a flattened fetch.
pub open spec fn opt_path_text(path: Option<&FlattenNodePath>) -> Option<Seq<char>> {
    match path {
        Some(path) => Some(path_text(path@, path@.len() as int)),
        None => None,
    }
}

/// Writes the path of a flattened fetch.
pub fn affected_path_text(path: Option<&FlattenNodePath>) -> (text: Option<String>)
    ensures
        opt_text(text) == opt_path_text(path),
{
    match path {
        Some(path) => Some(path.text()),
        None => None,
    }
}

/// The errors to report for the first `n` errors of a subgraph: each says which subgraph and which
/// fetch it comes from, and an error of an entity is reported at the places of the entity.
pub open spec fn reported(
    errors: Seq<ErrorView>,
    n: int,
    subgraph_name: Seq<char>,
    affected_path: Option<Seq<char>>,
    places: Option<Map<usize, Seq<Place>>>,
) -> Seq<ErrorView>
    decreases n,
{
    if n <= 0 || n > errors.len() {
        Seq::empty()
    } else {
        let error = attributed(errors[n - 1], Some(subgraph_name), affected_path);
        reported(errors, n - 1, subgraph_name, affected_path, places) + match places {
            Some(places) => at_places(error, places),
            None => seq![error],
        }
    }
}

/// The places of entities, where they are known.
pub open spec fn opt_entity_places(paths: Option<EntityPaths>) -> Option<
    Map<usize, Seq<Place>>,
> {
    match paths {
        Some(paths) => Some(entity_places(paths@)),
        None => None,
    }
}

impl ExecutionContext {
    /// A context for the execution of a plan, with the errors that were there before.
    pub fn new(query_plan: &QueryPlan, errors: Vec<GraphQLError>) -> (ctx: Self)
        requires
            query_plan.without_defer(),
        ensures
            ctx.errors == errors,
            ctx.output_rewrites@ == rewrites_by_id(
                query_plan.fetches(),
                query_plan.fetches().len() as int,
            ),
            ctx.response_storage.responses@.len() == 0,
    {
        ExecutionContext {
            errors,
            output_rewrites: OutputRewritesStorage::from_query_plan(query_plan),
            response_storage: ResponsesStorage { responses: Vec::new() },
        }
    }

    /// Reports the errors in the answer of a subgraph, see [`reported`].
    pub fn handle_errors(
        &mut self,
        subgraph_name: &str,
        affected_path: Option<&FlattenNodePath>,
        errors: Option<Vec<GraphQLError>>,
        entity_index_error_map: Option<EntityPaths>,
    )
        ensures
            final(self).output_rewrites == old(self).output_rewrites,
            final(self).response_storage == old(self).response_storage,
            errors_view(final(self).errors@) == errors_view(old(self).errors@) + (match errors {
                Some(errors) => reported(
                    errors_view(errors@),
                    errors@.len() as int,
                    subgraph_name@,
                    opt_path_text(affected_path),
                    opt_entity_places(entity_index_error_map),
                ),
                None => Seq::empty(),
            }),
    {
        let ghost before = errors_view(self.errors@);
        let ghost path = opt_path_text(affected_path);
        let ghost places = opt_entity_places(entity_index_error_map);
        if let Some(response_errors) = errors {
            let ghost given = errors_view(response_errors@);
            assert(before + reported(given, 0, subgraph_name@, path, places) =~= before);
            let affected_path = affected_path_text(affected_path);
            for i in 0..response_errors.len()
                invariant
                    self.output_rewrites == old(self).output_rewrites,
                    self.response_storage == old(self).response_storage,
                    given == errors_view(response_errors@),
                    path == opt_text(affected_path),
                    places == opt_entity_places(entity_index_error_map),
                    errors_view(self.errors@) == before + reported(
                        given,
                        i as int,
                        subgraph_name@,
                        path,
                        places,
                    ),
            {
                let ghost so_far = self.errors@;
                let error = response_errors[i].clone().attribute(
                    Some(String::from_str(subgraph_name)),
                    affected_path.clone(),
                );
                let ghost one = error@;
                match &entity_index_error_map {
                    Some(entity_paths) => {
                        let mut located = error.normalize_entity_error(entity_paths);
                        let ghost more = located@;
                        self.errors.append(&mut located);
                        assert(errors_view(self.errors@) =~= errors_view(so_far) + errors_view(
                            more,
                        ));
                    },
                    None => {
                        self.errors.push(error);
                        assert(errors_view(self.errors@) =~= errors_view(so_far) + seq![one]);
                    },
                }
                assert(errors_view(self.errors@) =~= before + reported(
                    given,
                    i + 1,
                    subgraph_name@,
                    path,
                    places,
                ));
            }
        } else {
            assert(before + Seq::<ErrorView>::empty() =~= before);
        }
    }
}

/// No error of a subgraph is lost: each of them is reported with its message at least once, where
/// every entity whose places are known has one.
pub proof fn no_error_is_lost(
    errors: Seq<ErrorView>,
    n: int,
    subgraph_name: Seq<char>,
    affected_path: Option<Seq<char>>,
    places: Option<Map<usize, Seq<Place>>>,
    k: int,
)
    requires
        0 <= k < n <= errors.len(),
        places matches Some(places) ==> all_have_places(places),
    ensures
        exists|j: int|
            0 <= j < reported(errors, n, subgraph_name, affected_path, places).len() && (
            #[trigger] reported(errors, n, subgraph_name, affected_path, places)[j]).message
                == errors[k].message,
    decreases n,
{
    let all = reported(errors, n, subgraph_name, affected_path, places);
    let before = reported(errors, n - 1, subgraph_name, affected_path, places);
    let error = attributed(errors[n - 1], Some(subgraph_name), affected_path);
    if k < n - 1 {
        no_error_is_lost(errors, n - 1, subgraph_name, affected_path, places, k);
        let j = choose|j: int| 0 <= j < before.len() && (#[trigger] before[j]).message
            == errors[k].message;
        assert(all[j] == before[j]);
    } else {
        let here = match places {
            Some(places) => at_places(error, places),
            None => seq![error],
        };
        assert(here.len() > 0);
        assert(here[0].message == error.message);
        assert(all[before.len() as int] == here[0]);
    }
}

} // verus!
