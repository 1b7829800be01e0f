//! What the calls of the library give back, in terms of what goes into them.

pub mod answers;
pub mod planning;
pub mod requests;
pub mod scheduling;
pub mod showing;
pub mod values;
