//! The start and the end of an execution.

use vstd::prelude::*;

verus! {

/// The data that a response starts from.
#[derive(Debug, Clone, Copy, PartialEq, Eq, Structural)]
pub enum InitialData {
    /// The answer to the introspection query.
    Introspection,
    /// No data: nothing is projected.
    Null,
    /// An object without fields.
    EmptyObject,
}

/// The data that a response starts from: the answer to an introspection query, where the operation
/// has one; no data where nothing is projected; else an object that the fetches fill.
pub fn initial_data(has_introspection_query: bool, projects_nothing: bool) -> (data: InitialData)
    ensures
        data == InitialData::Introspection <==> has_introspection_query,
        data == InitialData::Null <==> !has_introspection_query && projects_nothing,
        data == InitialData::EmptyObject <==> !has_introspection_query && !projects_nothing,
{
    if has_introspection_query {
        InitialData::Introspection
    } else if projects_nothing {
        InitialData::Null
    } else {
        InitialData::EmptyObject
    }
}

/// What an execution gives back. `H` is what was gathered of the headers of the subgraphs.
#[derive(Debug)]
pub struct PlanExecutionOutput<H> {
    pub body: Vec<u8>,
    pub response_headers_aggregator: Option<H>,
    pub error_count: usize,
}

impl<H> Default for PlanExecutionOutput<H> {
    fn default() -> (output: Self)
        ensures
            output.body@ == Seq::<u8>::empty(),
            output.response_headers_aggregator is None,
            output.error_count == 0,
    {
        PlanExecutionOutput {
            body: Vec::new(),
            response_headers_aggregator: None,
            error_count: 0,
        }
    }
}

} // verus!
