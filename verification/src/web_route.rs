//! Routes with no open parameters: concrete, requestable paths.

pub mod route;
pub mod segment;
