//! Query plans for a federated GraphQL router.
//!
//! A plan is a tree of requests to subgraphs ([`plan_nodes`]). The planner makes its nodes of fetch
//! steps ([`fetch_step`]); [`pretty`] lays a plan out for reading, and [`copies`] copies it.
//!
//! To run a plan, [`dag`] compiles it into nodes that wait for each other, in the order that
//! [`order`] describes. [`execution`] then decides which node is prepared next, and [`progress`]
//! says what holds throughout a run. What a node asks of a subgraph, and what comes back, is in
//! [`jobs`], [`variables`] and [`entities`]; the objects of the response are held elsewhere, behind
//! [`objects`]; what is gathered on the way, in [`context`] and
//! [`errors`].

pub mod ast;
pub mod context;
pub mod copies;
pub mod dag;
pub mod entities;
pub mod errors;
pub mod execution;
pub mod fetch_step;
pub mod jobs;
pub mod laws;
pub mod names;
pub mod objects;
pub mod order;
pub mod output;
pub mod paths;
pub mod plan_nodes;
pub mod pretty;
pub mod progress;
pub mod variables;
