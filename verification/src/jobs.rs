//! The jobs of an execution: what a node of the plan asks of a subgraph, and what comes back.

use std::collections::HashMap;
use vstd::hash_map::StringHashMap;
use vstd::prelude::*;
use vstd::string::*;

use crate::ast::{opt_text, Condition, OperationKind, SelectionSet};
use crate::context::{opt_path_text, reported, rewrites_of, ExecutionContext};
use crate::entities::{opt_place, EntityMerge, MergeView};
use crate::errors::{
    errors_view, ErrorView, GraphQLError, GraphQLErrorPath, GraphQLErrorPathSegment, Place,
};
use crate::fetch_step::{fetches_in_place, plans_step, FetchStepData};
use crate::objects::{rewrite_all, rewrite_each, rewritten, Objects};
use crate::plan_nodes::{
    rewrites_view, FetchNode, FetchRewrite, FetchRewriteView, FlattenNode, FlattenNodePath, PlanNode,
};
use crate::variables::{
    chosen_clause, condition_node_by_variables, json_bool, opt_map, select_fetch_variables,
    selected_variables, VariableValues,
};

verus! {

/// The request of a node.
#[derive(Debug)]
pub enum NodeJob<'exec> {
    /// Data for the root of the response.
    Fetch(&'exec FetchNode),
    /// Data for the objects that a path leads to.
    Flatten(&'exec FlattenNode),
}

/// The node whose request stands for `node`: a fetch or a flattened fetch is its own, a condition
/// has that of the clause that the variables choose, and other nodes have none.
pub open spec fn requesting_node(
    node: PlanNode,
    variable_values: Option<VariableValues>,
) -> Option<PlanNode>
    decreases node,
{
    match node {
        PlanNode::Fetch(_) | PlanNode::Flatten(_) => Some(node),
        PlanNode::Condition(condition_node) => match chosen_clause(condition_node, variable_values) {
            Some(clause) => requesting_node(clause, variable_values),
            None => None,
        },
        _ => None,
    }
}

impl<'exec> NodeJob<'exec> {
    /// The node of the request.
    pub open spec fn node(self) -> PlanNode {
        match self {
            NodeJob::Fetch(fetch) => PlanNode::Fetch(*fetch),
            NodeJob::Flatten(flatten) => PlanNode::Flatten(*flatten),
        }
    }

    /// The request of a node, see [`requesting_node`].
    pub fn of_node(
        node: &'exec PlanNode,
        variable_values: &'exec Option<VariableValues>,
    ) -> (job: Option<Self>)
        ensures
            match job {
                Some(job) => requesting_node(*node, *variable_values) == Some(job.node()),
                None => requesting_node(*node, *variable_values) is None,
            },
        decreases node,
    {
        match node {
            PlanNode::Fetch(fetch_node) => Some(NodeJob::Fetch(fetch_node)),
            PlanNode::Flatten(flatten_node) => Some(NodeJob::Flatten(flatten_node)),
            PlanNode::Condition(condition_node) => {
                // Evaluate condition and prepare the selected branch
                match condition_node_by_variables(condition_node, variable_values) {
                    Some(selected_node) => {
                        assert(decreases_to!(node => selected_node));
                        Self::of_node(selected_node, variable_values)
                    },
                    None => None,
                }
            },
            // Sequence and Parallel should have been decomposed when the plan was compiled
            _ => None,
        }
    }
}

impl FlattenNode {
    /// The fetch of the node with what it requires of the objects that it completes, where it has
    /// both.
    pub open spec fn entity_fetch(self) -> Option<(FetchNode, SelectionSet)> {
        match *self.node {
            PlanNode::Fetch(fetch) => match fetch.requires {
                Some(requires_set) => Some((fetch, requires_set)),
                None => None,
            },
            _ => None,
        }
    }

    /// The fetch of the node and what it requires, see [`FlattenNode::entity_fetch`].
    pub fn fetch_with_requires(&self) -> (fetch: Option<(&FetchNode, &SelectionSet)>)
        ensures
            match fetch {
                Some((fetch, requires_set)) => self.entity_fetch() == Some((*fetch, *requires_set)),
                None => self.entity_fetch() is None,
            },
    {
        match &*self.node {
            PlanNode::Fetch(fetch_node) => match &fetch_node.requires {
                Some(requires_nodes) => Some((fetch_node, requires_nodes)),
                None => None,
            },
            _ => None,
        }
    }
}

/// The claims that every request carries in its extensions.
#[derive(Debug)]
pub struct JwtAuthForwardingPlan {
    pub extension_field_name: String,
    pub extension_field_value: sonic_rs::Value,
}

/// A request to a subgraph, without its headers.
pub struct SubgraphExecutionRequest<'a> {
    pub query: &'a str,
    /// Whether equal requests may share one answer.
    pub dedupe: bool,
    pub operation_name: Option<&'a str>,
    pub variables: Option<StringHashMap<&'a sonic_rs::Value>>,
    /// The representations of the objects to complete, as JSON.
    pub representations: Option<Vec<u8>>,
    pub extensions: Option<StringHashMap<&'a sonic_rs::Value>>,
}

/// The text of a borrowed name, where there is one.
pub open spec fn opt_str(name: Option<&str>) -> Option<Seq<char>> {
    match name {
        Some(name) => Some(name@),
        None => None,
    }
}

impl<'a> SubgraphExecutionRequest<'a> {
    /// Sets a field of the extensions.
    pub fn add_request_extensions_field(&mut self, key: String, value: &'a sonic_rs::Value)
        ensures
            final(self).query == old(self).query,
            final(self).dedupe == old(self).dedupe,
            final(self).operation_name == old(self).operation_name,
            final(self).variables == old(self).variables,
            final(self).representations == old(self).representations,
            opt_map(final(self).extensions) == Some(
                match old(self).extensions {
                    Some(extensions) => extensions@,
                    None => Map::empty(),
                }.insert(key@, value),
            ),
    {
        let mut extensions = match self.extensions.take() {
            Some(extensions) => extensions,
            None => StringHashMap::new(),
        };
        extensions.insert(key, value);
        self.extensions = Some(extensions);
    }
}

/// What the requests of one execution have in common.
pub struct Executor<'exec> {
    pub variable_values: &'exec Option<VariableValues>,
    pub jwt_forwarding_plan: Option<JwtAuthForwardingPlan>,
    pub dedupe_subgraph_requests: bool,
}

/// The extensions of a request.
pub open spec fn forwarded<'a>(plan: Option<JwtAuthForwardingPlan>) -> Option<
    Map<Seq<char>, &'a sonic_rs::Value>,
> {
    match plan {
        Some(plan) => Some(
            Map::empty().insert(plan.extension_field_name@, &plan.extension_field_value),
        ),
        None => None,
    }
}

impl<'exec> Executor<'exec> {
    /// The request of a fetch. A flattened fetch passes its representations.
    pub fn fetch_request<'a>(
        &'a self,
        node: &'a FetchNode,
        representations: Option<Vec<u8>>,
    ) -> (request: SubgraphExecutionRequest<'a>)
        ensures
            request.query@ == node.operation.document_str@,
            request.dedupe == self.dedupe_subgraph_requests,
            opt_str(request.operation_name) == opt_text(node.operation_name),
            opt_map(request.variables) == selected_variables(
                *self.variable_values,
                node.variable_usages,
            ),
            request.representations == representations,
            opt_map(request.extensions) == forwarded(self.jwt_forwarding_plan),
    {
        let variable_refs = select_fetch_variables(
            self.variable_values,
            node.variable_usages.as_ref(),
        );
        let mut request = SubgraphExecutionRequest {
            query: node.operation.document_str.as_str(),
            dedupe: self.dedupe_subgraph_requests,
            operation_name: match &node.operation_name {
                Some(name) => Some(name.as_str()),
                None => None,
            },
            variables: variable_refs,
            representations,
            extensions: None,
        };
        if let Some(jwt_forwarding_plan) = &self.jwt_forwarding_plan {
            request.add_request_extensions_field(
                jwt_forwarding_plan.extension_field_name.clone(),
                &jwt_forwarding_plan.extension_field_value,
            );
        }
        request
    }
}

/// Whether the requests of an operation may share answers: those of queries may.
pub fn dedupes_requests(operation_root: &str) -> (dedupe: bool)
    ensures
        dedupe == (operation_root@ == "Query"@),
{
    String::from_str(operation_root) == String::from_str("Query")
}

/// How the kind of an operation is written. An operation without a kind is a query.
pub open spec fn kind_text(kind: Option<OperationKind>) -> Seq<char> {
    match kind {
        Some(OperationKind::Mutation) => "mutation"@,
        Some(OperationKind::Subscription) => "subscription"@,
        Some(OperationKind::Query) | None => "query"@,
    }
}

/// Writes the kind of an operation.
pub fn operation_kind_text(kind: &Option<OperationKind>) -> (text: &'static str)
    ensures
        text@ == kind_text(*kind),
{
    match kind {
        Some(OperationKind::Query) | None => "query",
        Some(OperationKind::Mutation) => "mutation",
        Some(OperationKind::Subscription) => "subscription",
    }
}

/// The answer of a subgraph: its data, its errors, its headers and its raw bytes.
#[derive(Debug)]
pub struct SubgraphResponse<D, H> {
    pub data: D,
    pub errors: Option<Vec<GraphQLError>>,
    pub headers: Option<H>,
    pub bytes: Option<Vec<u8>>,
}

/// A job that came back.
#[derive(Debug)]
pub enum ExecutionJob<'exec, D, H> {
    Fetch {
        fetch_node_id: i64,
        subgraph_name: &'exec str,
        response: SubgraphResponse<D, H>,
    },
    FlattenFetch {
        fetch_node_id: i64,
        subgraph_name: &'exec str,
        response: SubgraphResponse<D, H>,
        flatten_node_path: &'exec FlattenNodePath,
        representation_hashes: Vec<u64>,
        representation_hash_to_index: HashMap<u64, usize>,
    },
}

impl<'exec, D, H> ExecutionJob<'exec, D, H> {
    /// The answer.
    pub open spec fn answer(self) -> SubgraphResponse<D, H> {
        match self {
            ExecutionJob::Fetch { response, .. } => response,
            ExecutionJob::FlattenFetch { response, .. } => response,
        }
    }

    /// The ID of the fetch.
    pub open spec fn id(self) -> i64 {
        match self {
            ExecutionJob::Fetch { fetch_node_id, .. } => fetch_node_id,
            ExecutionJob::FlattenFetch { fetch_node_id, .. } => fetch_node_id,
        }
    }

    /// The name of the subgraph.
    pub open spec fn subgraph(self) -> Seq<char> {
        match self {
            ExecutionJob::Fetch { subgraph_name, .. } => subgraph_name@,
            ExecutionJob::FlattenFetch { subgraph_name, .. } => subgraph_name@,
        }
    }

    /// The path of a flattened fetch.
    pub open spec fn path(self) -> Option<&'exec FlattenNodePath> {
        match self {
            ExecutionJob::Fetch { .. } => None,
            ExecutionJob::FlattenFetch { flatten_node_path, .. } => Some(flatten_node_path),
        }
    }

    /// The job of a fetch at the root of the response.
    pub fn of_fetch(node: &'exec FetchNode, response: SubgraphResponse<D, H>) -> (job: Self)
        ensures
            job is Fetch,
            job.id() == node.id,
            job.subgraph() == node.service_name@,
            job.answer() == response,
    {
        ExecutionJob::Fetch {
            fetch_node_id: node.id,
            subgraph_name: node.service_name.as_str(),
            response,
        }
    }

    /// The job of a flattened fetch, with what was asked for.
    pub fn of_flatten(
        node: &'exec FetchNode,
        path: &'exec FlattenNodePath,
        response: SubgraphResponse<D, H>,
        representation_hashes: Vec<u64>,
        representation_hash_to_index: HashMap<u64, usize>,
    ) -> (job: Self)
        ensures
            job is FlattenFetch,
            job.id() == node.id,
            job.subgraph() == node.service_name@,
            job.path() == Some(path),
            job.answer() == response,
            job->representation_hashes == representation_hashes,
            job->representation_hash_to_index == representation_hash_to_index,
    {
        ExecutionJob::FlattenFetch {
            fetch_node_id: node.id,
            subgraph_name: node.service_name.as_str(),
            response,
            flatten_node_path: path,
            representation_hashes,
            representation_hash_to_index,
        }
    }

    /// The answer of the job.
    pub fn response(self) -> (response: SubgraphResponse<D, H>)
        ensures
            response == self.answer(),
    {
        match self {
            ExecutionJob::Fetch { response, .. } => response,
            ExecutionJob::FlattenFetch { response, .. } => response,
        }
    }

    /// The answer of the job, by reference.
    pub fn response_ref(&self) -> (response: &SubgraphResponse<D, H>)
        ensures
            *response == self.answer(),
    {
        match self {
            ExecutionJob::Fetch { response, .. } => response,
            ExecutionJob::FlattenFetch { response, .. } => response,
        }
    }

    /// The ID of the fetch that the job answers.
    pub fn fetch_node_id(&self) -> (id: i64)
        ensures
            id == self.id(),
    {
        match self {
            ExecutionJob::Fetch { fetch_node_id, .. } => *fetch_node_id,
            ExecutionJob::FlattenFetch { fetch_node_id, .. } => *fetch_node_id,
        }
    }

    /// The subgraph that the answer comes from.
    pub fn subgraph_name(&self) -> (name: &'exec str)
        ensures
            name@ == self.subgraph(),
    {
        match self {
            ExecutionJob::Fetch { subgraph_name, .. } => subgraph_name,
            ExecutionJob::FlattenFetch { subgraph_name, .. } => subgraph_name,
        }
    }

    /// The path of a flattened fetch; a fetch at the root has none.
    pub fn affected_path(&self) -> (path: Option<&'exec FlattenNodePath>)
        ensures
            path == self.path(),
    {
        match self {
            ExecutionJob::Fetch { .. } => None,
            ExecutionJob::FlattenFetch { flatten_node_path, .. } => Some(flatten_node_path),
        }
    }
}

/// Where the data of an answer goes.
#[derive(Debug)]
pub enum Merge<'exec> {
    /// Into the root of the response.
    Root,
    /// Into the objects that a path leads to, as the [`EntityMerge`] tells.
    Entities(&'exec FlattenNodePath, EntityMerge),
}

/// The errors in an answer, with what is reported of where they come from.
#[derive(Debug)]
pub struct ErrorReport<'exec> {
    pub subgraph_name: &'exec str,
    pub affected_path: Option<&'exec FlattenNodePath>,
    pub errors: Option<Vec<GraphQLError>>,
}

impl<'exec> ErrorReport<'exec> {
    /// What is reported, where the places of the entities are known or not.
    pub open spec fn reports(self, places: Option<Map<usize, Seq<Place>>>) -> Seq<ErrorView> {
        match self.errors {
            Some(errors) => reported(
                errors_view(errors@),
                errors@.len() as int,
                self.subgraph_name@,
                opt_path_text(self.affected_path),
                places,
            ),
            None => Seq::empty(),
        }
    }
}

/// An answer whose data is to be merged into the response with [`ExecutionContext::merge`].
#[derive(Debug)]
pub struct ReceivedData<'exec, D> {
    /// The fetch, whose output rewrites apply to the data.
    pub fetch_node_id: i64,
    pub data: D,
    pub merge: Merge<'exec>,
    pub report: ErrorReport<'exec>,
}

/// How the answer of a job is merged: that of a fetch into the root, that of a flattened fetch into
/// the objects whose representations were asked for. The places of the entities are kept where the
/// answer has errors.
pub open spec fn merges_job<D, H>(merge: Merge, job: ExecutionJob<D, H>) -> bool {
    match job {
        ExecutionJob::Fetch { .. } => merge is Root,
        ExecutionJob::FlattenFetch {
            response,
            flatten_node_path,
            representation_hashes,
            representation_hash_to_index,
            ..
        } => {
            &&& merge is Entities
            &&& *merge->Entities_0 == *flatten_node_path
            &&& merge->Entities_1@ == MergeView {
                hashes: representation_hashes@,
                index_of: representation_hash_to_index@,
                index: 0,
                places: if response.errors is Some {
                    Some(Map::empty())
                } else {
                    None
                },
            }
        },
    }
}

/// Whether `received` is the answer of a job as it is handled further.
pub open spec fn received_from<D, H>(received: ReceivedData<D>, job: ExecutionJob<D, H>) -> bool {
    &&& received.fetch_node_id == job.id()
    &&& received.data == job.answer().data
    &&& merges_job(received.merge, job)
    &&& received.report.subgraph_name@ == job.subgraph()
    &&& received.report.affected_path == job.path()
    &&& received.report.errors == job.answer().errors
}

/// The raw answers after that of a job came.
pub open spec fn stored<D, H>(responses: Seq<Vec<u8>>, job: ExecutionJob<D, H>) -> Seq<Vec<u8>> {
    match job.answer().bytes {
        Some(bytes) => responses.push(bytes),
        None => responses,
    }
}

impl ExecutionContext {
    /// Takes what became of a job. The answer of a job that succeeded is handed on: its bytes are
    /// stored, its data is to be merged. An error of a job that failed is reported, and so is an
    /// error in the headers of an answer; the execution goes on either way.
    pub fn process_job_result<'exec, D, H>(
        &mut self,
        job: Result<ExecutionJob<'exec, D, H>, GraphQLError>,
        header_error: Option<GraphQLError>,
    ) -> (received: Option<ReceivedData<'exec, D>>)
        ensures
            final(self).output_rewrites == old(self).output_rewrites,
            match job {
                Ok(job) => {
                    &&& received matches Some(received) && received_from(received, job)
                    &&& final(self).errors@ == (match header_error {
                        Some(error) => old(self).errors@.push(error),
                        None => old(self).errors@,
                    })
                    &&& final(self).response_storage.responses@ == stored(
                        old(self).response_storage.responses@,
                        job,
                    )
                },
                Err(error) => {
                    &&& received is None
                    &&& final(self).errors@ == old(self).errors@.push(error)
                    &&& final(self).response_storage == old(self).response_storage
                },
            },
    {
        match job {
            Err(err) => {
                self.errors.push(err);
                None
            },
            Ok(job) => {
                if let Some(err) = header_error {
                    self.errors.push(err);
                }
                Some(self.receive(job))
            },
        }
    }

    /// Takes the answer of a job: its bytes are stored, its data is to be merged.
    fn receive<'exec, D, H>(&mut self, job: ExecutionJob<'exec, D, H>) -> (received: ReceivedData<
        'exec,
        D,
    >)
        ensures
            final(self).errors == old(self).errors,
            final(self).output_rewrites == old(self).output_rewrites,
            final(self).response_storage.responses@ == stored(
                old(self).response_storage.responses@,
                job,
            ),
            received_from(received, job),
    {
        let fetch_node_id = job.fetch_node_id();
        let subgraph_name = job.subgraph_name();
        let affected_path = job.affected_path();
        match job {
            ExecutionJob::Fetch { response, .. } => {
                if let Some(response_bytes) = response.bytes {
                    self.response_storage.add_response(response_bytes);
                }
                ReceivedData {
                    fetch_node_id,
                    data: response.data,
                    merge: Merge::Root,
                    report: ErrorReport { subgraph_name, affected_path, errors: response.errors },
                }
            },
            ExecutionJob::FlattenFetch {
                response,
                flatten_node_path,
                representation_hashes,
                representation_hash_to_index,
                ..
            } => {
                if let Some(response_bytes) = response.bytes {
                    self.response_storage.add_response(response_bytes);
                }
                // If there is an error in the response, then collect the paths for normalizing the
                // error
                let entities = EntityMerge::new(
                    representation_hashes,
                    representation_hash_to_index,
                    response.errors.is_some(),
                );
                ReceivedData {
                    fetch_node_id,
                    data: response.data,
                    merge: Merge::Entities(flatten_node_path, entities),
                    report: ErrorReport { subgraph_name, affected_path, errors: response.errors },
                }
            },
        }
    }

    /// Reports the errors of an answer whose data is merged. An answer that was merged into objects
    /// comes with the walk over them, which knows the places of the entities.
    pub fn report(&mut self, report: ErrorReport, merged: Option<EntityMerge>)
        ensures
            final(self).output_rewrites == old(self).output_rewrites,
            final(self).response_storage == old(self).response_storage,
            errors_view(final(self).errors@) == errors_view(old(self).errors@) + report.reports(
                match merged {
                    Some(merge) => merge@.places,
                    None => None,
                },
            ),
    {
        let entity_index_error_map = match merged {
            Some(merge) => merge.finish(),
            None => None,
        };
        self.handle_errors(
            report.subgraph_name,
            report.affected_path,
            report.errors,
            entity_index_error_map,
        );
    }
}

/// What is left to do for an answer.
#[derive(Debug)]
pub enum Merged<'exec, V> {
    /// Nothing: this is the response, and the errors are reported.
    Done(V),
    /// The answer has entities, which complete the objects that a path leads to.
    Walk(EntityWalk<'exec, V>),
}

/// A walk over the objects that a path leads to. Each of them is completed with
/// [`EntityMerge::complete`]; then the errors are reported with [`ExecutionContext::report`].
#[derive(Debug)]
pub struct EntityWalk<'exec, V> {
    pub response: V,
    pub path: &'exec FlattenNodePath,
    /// The entities, after all output rewrites.
    pub entities: Vec<V>,
    pub merge: EntityMerge,
    /// Where the walk starts, where the places of the objects are to be kept.
    pub error_path: Option<GraphQLErrorPath>,
    pub report: ErrorReport<'exec>,
}

/// Whether `merged` is a response with the data of a fetch merged into it: the data after every
/// output rewrite of the fetch, in their order.
pub open spec fn merged_at_root<V, O: Objects<V>>(
    objects: &O,
    rewrites: Seq<FetchRewriteView>,
    data: V,
    response: V,
    merged: V,
) -> bool {
    exists|changed: V| #[trigger]
        call_ensures(O::merge, (objects, response, changed), merged) && rewritten(
            objects,
            rewrites,
            data,
            changed,
        )
}

/// Whether each of some entities was changed by every rewrite, in their order.
pub open spec fn each_rewritten<V, O: Objects<V>>(
    objects: &O,
    rewrites: Seq<FetchRewriteView>,
    entities: Seq<V>,
    changed: Seq<V>,
) -> bool {
    &&& changed.len() == entities.len()
    &&& forall|k: int|
        0 <= k < entities.len() ==> #[trigger] rewritten(objects, rewrites, entities[k], changed[k])
}

/// Whether `walk` completes objects of a response with entities that came for a flattened fetch.
pub open spec fn walks_with<V, O: Objects<V>>(
    walk: EntityWalk<V>,
    objects: &O,
    rewrites: Seq<FetchRewriteView>,
    entities: Seq<V>,
    received: ReceivedData<V>,
    response: V,
) -> bool {
    &&& received.merge is Entities
    &&& walk.response == response
    &&& walk.path == received.merge->Entities_0
    &&& each_rewritten(objects, rewrites, entities, walk.entities@)
    &&& walk.merge == received.merge->Entities_1
    &&& opt_place(walk.error_path) == (if received.report.errors is Some {
        Some(Seq::<GraphQLErrorPathSegment>::empty())
    } else {
        None
    })
    &&& walk.report == received.report
}

impl ExecutionContext {
    /// Merges an answer into the response. The data of a fetch goes to the root, after the output
    /// rewrites of the fetch. The entities of a flattened fetch are made ready for the walk over the
    /// objects that they complete; where the answer has no entities, nothing is merged. Where no
    /// walk is left to do, the errors of the answer are reported.
    pub fn merge<'exec, V, O: Objects<V>>(
        &mut self,
        objects: &O,
        received: ReceivedData<'exec, V>,
        response: V,
    ) -> (merged: Merged<'exec, V>)
        ensures
            final(self).output_rewrites == old(self).output_rewrites,
            final(self).response_storage == old(self).response_storage,
            ({
                let rewrites = rewrites_of(old(self).output_rewrites@, received.fetch_node_id);
                match received.merge {
                    Merge::Root => merged is Done && merged_at_root(
                        objects,
                        rewrites,
                        received.data,
                        response,
                        merged->Done_0,
                    ),
                    Merge::Entities(_, _) => exists|found: Option<Vec<V>>| #[trigger]
                        call_ensures(O::entities, (objects, received.data), found) && (match found {
                            Some(entities) => merged is Walk && walks_with(
                                merged->Walk_0,
                                objects,
                                rewrites,
                                entities@,
                                received,
                                response,
                            ),
                            None => merged == Merged::<'exec, V>::Done(response),
                        }),
                }
            }),
            errors_view(final(self).errors@) == (match merged {
                Merged::Done(_) => errors_view(old(self).errors@) + received.report.reports(None),
                Merged::Walk(_) => errors_view(old(self).errors@),
            }),
    {
        let output_rewrites: &[FetchRewrite] = match self.output_rewrites.get(
            received.fetch_node_id,
        ) {
            Some(output_rewrites) => output_rewrites,
            None => &[],
        };
        let ghost rewrites = rewrites_of(self.output_rewrites@, received.fetch_node_id);
        assert(rewrites_view(output_rewrites@) =~= rewrites);
        match received.merge {
            Merge::Root => {
                let changed = rewrite_all(objects, output_rewrites, received.data);
                let merged = objects.merge(response, changed);
                self.report(received.report, None);
                Merged::Done(merged)
            },
            Merge::Entities(path, merge) => match objects.entities(received.data) {
                Some(entities) => {
                    let entities = rewrite_each(objects, output_rewrites, entities);
                    // If there is an error in the response, then collect the paths for normalizing
                    // the error
                    let error_path = match &received.report.errors {
                        Some(_) => Some(GraphQLErrorPath { segments: Vec::new() }),
                        None => None,
                    };
                    Merged::Walk(
                        EntityWalk {
                            response,
                            path,
                            entities,
                            merge,
                            error_path,
                            report: received.report,
                        },
                    )
                },
                None => {
                    self.report(received.report, None);
                    Merged::Done(response)
                },
            },
        }
    }
}

/// A step that is included by a variable is requested exactly where the request gives the variable
/// as true; one that is skipped by a variable, exactly where the request gives it as anything else;
/// and one without a condition always. What is requested then is the fetch of the step.
pub proof fn step_is_requested_by_its_condition(
    plan: PlanNode,
    step: FetchStepData,
    fetch: FetchNode,
    variable_values: Option<VariableValues>,
)
    requires
        plans_step(plan, step, fetch),
    ensures
        requesting_node(plan, variable_values) is Some <==> (match step.condition {
            Some(Condition::Include(variable)) => is_given(variable_values, variable@, true),
            Some(Condition::Skip(variable)) => is_given(variable_values, variable@, false),
            None => true,
        }),
        requesting_node(plan, variable_values) matches Some(node) ==> fetches_in_place(
            node,
            step,
            fetch,
        ),
{
    reveal_with_fuel(requesting_node, 2);
}

/// Whether a request gives a variable, and gives it as true or as anything else.
pub open spec fn is_given(
    variable_values: Option<VariableValues>,
    variable: Seq<char>,
    met: bool,
) -> bool {
    variable_values matches Some(values) && values@.contains_key(variable) && met == (json_bool(
        values@[variable],
    ) == Some(true))
}

} // verus!
