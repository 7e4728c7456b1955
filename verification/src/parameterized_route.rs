//! Route templates: routes whose segments may include named or catchall
//! parameters.

pub mod route;
pub mod segment;
