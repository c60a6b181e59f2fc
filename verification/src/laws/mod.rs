//! What the operations of the library promise, stated over their inputs and their
//! results: what a result must satisfy, and how two results relate.

pub mod encodings;
pub mod links;
pub mod messages;
pub mod profiles;
pub mod requests;
pub mod texts;
