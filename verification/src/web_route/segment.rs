//! An individual segment of a fixed route.

use vstd::prelude::*;
use crate::uuid_text::{is_uuid_text, uuid_hyphenated};

verus! {

/// Represents an individual segment of a route (i.e. the bit between the
/// `/`). Its text is kept verbatim; only an empty text is rejected.
#[derive(Debug, Clone, PartialEq)]
pub struct WebSegment(String);

impl View for WebSegment {
    type V = Seq<char>;

    closed spec fn view(&self) -> Seq<char> {
        self.0@
    }
}

impl WebSegment {
    /// Returns the value of the segment.
    pub fn to_evaluated(&self) -> (text: String)
        ensures
            text@ == self@,
    {
        self.0.clone()
    }

    /// Classifies one already-split path component. An empty component is
    /// rejected rather than kept, which is what keeps consecutive
    /// separators out of a route; any other text is taken verbatim.
    pub fn from_component(value: &str) -> (segment: Result<WebSegment, ()>)
        ensures
            value@.len() > 0 ==> (segment matches Ok(parsed) && parsed@ == value@),
            value@.len() == 0 ==> segment is Err,
    {
        if value.is_empty() {
            Err(())
        } else {
            Ok(WebSegment(value.to_owned()))
        }
    }

    /// The segment standing for a UUID: its hyphenated lowercase text.
    pub fn from_uuid(id: &uuid::Uuid) -> (segment: WebSegment)
        ensures
            is_uuid_text(segment@),
    {
        WebSegment(uuid_hyphenated(id))
    }
}

} // verus!
