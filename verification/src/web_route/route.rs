//! A route with no open parameters: a concrete, requestable path.

use vstd::prelude::*;
use crate::text::{render_path_texts, rendered_path};
use crate::to_segments::{fixed_components, ToFixedSegments};
use crate::web_route::segment::WebSegment;

verus! {

/// The canonical path that raw path text normalizes to: its non-empty
/// components re-joined behind a single leading `/`.
pub open spec fn canonical_path(s: Seq<char>) -> Seq<char> {
    rendered_path(fixed_components(s))
}

/// Defines a route structure that can be safely joined, no matter the
/// leading/trailing slash configuration.
///
/// The route's identity is its canonical string: `/` followed by its
/// segments joined with `/`. Two routes are equal iff those strings are.
#[derive(Debug, Clone, PartialEq)]
pub struct WebRoute(String);

impl View for WebRoute {
    type V = Seq<char>;

    closed spec fn view(&self) -> Seq<char> {
        self.0@
    }
}

impl WebRoute {
    /// Creates a new `WebRoute` holding the canonical string that the
    /// source's components render to.
    pub fn new<R: ToFixedSegments>(route: R) -> (created: Self)
        ensures
            created@ == rendered_path(route.fixed_segments_view()),
    {
        let segments = route.to_segments();
        WebRoute(evaluate_segments(segments))
    }

    /// Joins a route onto an existing `WebRoute` returning the joined
    /// route: this route's components first, then the other source's, in
    /// order, re-rendered canonically.
    pub fn join<R: ToFixedSegments>(&self, route: R) -> (joined: Self)
        ensures
            joined@ == rendered_path(fixed_components(self@) + route.fixed_segments_view()),
    {
        let mut segments = self.to_segments();
        let mut other = route.to_segments();
        let ghost first = segments@;
        let ghost second = other@;
        segments.append(&mut other);
        proof {
            let viewfn = |g: WebSegment| g@;
            assert(segments@.map_values(viewfn) =~= first.map_values(viewfn) + second.map_values(
                viewfn,
            ));
        }
        WebRoute(evaluate_segments(segments))
    }

    /// The segments of this route, re-derived from its canonical string.
    pub fn to_segments(&self) -> (segments: Vec<WebSegment>)
        ensures
            segments@.map_values(|g: WebSegment| g@) == fixed_components(self@),
    {
        crate::to_segments::parse_fixed_text(self.0.as_str())
    }

    /// Returns the route in its "templated" representation so that it can
    /// be used in web server route definitions; for a fixed route that is
    /// its canonical path re-rendered from its segments.
    pub fn as_template_route(&self) -> (template: String)
        ensures
            template@ == canonical_path(self@),
    {
        let segments = self.to_segments();
        evaluate_segments(segments)
    }

    /// The route's canonical string.
    pub fn as_str(&self) -> (path: &str)
        ensures
            path@ == self@,
    {
        self.0.as_str()
    }
}

/// Convert `segments` into their normalized `String` route representation.
fn evaluate_segments(segments: Vec<WebSegment>) -> (path: String)
    ensures
        path@ == rendered_path(segments@.map_values(|g: WebSegment| g@)),
{
    let ghost viewfn = |g: WebSegment| g@;
    let n = segments.len();
    let mut texts: Vec<String> = Vec::new();
    let mut k: usize = 0;
    proof {
        assert(segments@.map_values(viewfn).take(0) =~= texts@.map_values(|t: String| t@));
    }
    while k < n
        invariant
            0 <= k <= n,
            n == segments@.len(),
            viewfn == (|g: WebSegment| g@),
            texts@.map_values(|t: String| t@) == segments@.map_values(viewfn).take(k as int),
        decreases n - k,
    {
        let segment = &segments[k];
        let ghost before = texts@;
        let text = segment.to_evaluated();
        let ghost pushed = text@;
        texts.push(text);
        proof {
            assert(pushed == viewfn(segments@[k as int]));
            assert(texts@.map_values(|t: String| t@) =~= before.map_values(|t: String| t@).push(
                pushed,
            ));
            assert(before.map_values(|t: String| t@).push(pushed) =~= segments@.map_values(
                viewfn,
            ).take(k as int + 1));
        }
        k = k + 1;
    }
    proof {
        assert(segments@.map_values(viewfn).take(n as int) =~= segments@.map_values(viewfn));
    }
    render_path_texts(&texts)
}

} // verus!
