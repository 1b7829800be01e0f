//! What the operations of the library are for, stated of their inputs and results alone.
//!
//! The contracts speak of results through spec functions. The laws in these modules say what holds
//! of these results, in terms of the data that goes in and comes out, for all inputs.

pub mod answers;
pub mod calls;
pub mod planning;
pub mod reading;
pub mod requests;
pub mod scheduling;
pub mod showing;
pub mod tree;
