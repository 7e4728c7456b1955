//! The failures that populating a route can report.

use vstd::prelude::*;
use vstd::string::StringExecFns;

verus! {

/// An error returned while populating the parameters of a route.
#[derive(Debug, Clone)]
pub enum WebRouteError {
    /// When generating a populated route, the `values` input needs to
    /// serialize into key-value pairs.
    InvalidValue,
    /// When generating a populated route, there was no value to populate the
    /// specified parameter key.
    UnpopulatedParam(String),
}

impl WebRouteError {
    /// A readable description of the failure.
    pub fn message(&self) -> (text: String)
        ensures
            text@ == match self {
                WebRouteError::InvalidValue => (
                "values need to be able to serialize into a `serde_json::Value::Object`")@,
                WebRouteError::UnpopulatedParam(name) => (
                "no value to populate parameter: ")@ + name@,
            },
    {
        match self {
            WebRouteError::InvalidValue => String::from_str(
                "values need to be able to serialize into a `serde_json::Value::Object`",
            ),
            WebRouteError::UnpopulatedParam(name) => String::from_str(
                "no value to populate parameter: ",
            ).concat(name.as_str()),
        }
    }
}

} // verus!
