//! A route template that can be used to define routes for a webserver, and
//! populated to produce a concrete path.

use vstd::prelude::*;
use crate::error::WebRouteError;
use crate::parameterized_route::segment::{
    populate_segment, segment_wf, template_of, ParameterizedSegment, SegmentView,
};
use crate::text::{
    join_with_slash, lemma_join_concat, lemma_split_join_inverse, render_path_texts,
    rendered_path, split_on_slash,
};
use crate::to_segments::{
    classify_components, lemma_classify_components_concat, lemma_classify_single,
    lemma_parsed_segments_wf, parsed_segments, statics_of, ToParameterizedSegments,
};
use crate::values::{json_entries_of, json_object_entries, resolve_values, resolved_pairs};
use crate::values::pairs_view;
use crate::web_route::route::{canonical_path, WebRoute};

verus! {

/// The templated texts of the given segments, in order.
pub open spec fn templates_of(segments: Seq<SegmentView>) -> Seq<Seq<char>> {
    segments.map_values(|g: SegmentView| template_of(g))
}

/// The canonical template that raw path text normalizes to: its classified
/// segments re-rendered behind a single leading `/`.
pub open spec fn canonical_template(s: Seq<char>) -> Seq<char> {
    rendered_path(templates_of(parsed_segments(s)))
}

/// Defines a route structure that can be used to define routes for a
/// webserver.
///
/// Its templated sections can be easily populated to create a `WebRoute`
/// which can be used to make requests against the webserver routes that the
/// `ParameterizedRoute` was used to define.
///
/// The route's identity is its canonical template string; two routes are
/// equal iff those strings are. Beside that string the route keeps its
/// classified segments exactly as it was constructed: classification only
/// happens when text is parsed, never again to already-typed segments.
#[derive(Debug, Clone)]
pub struct ParameterizedRoute {
    segments: Vec<ParameterizedSegment>,
    canonical: String,
}

impl View for ParameterizedRoute {
    type V = Seq<char>;

    closed spec fn view(&self) -> Seq<char> {
        self.canonical@
    }
}

impl PartialEq for ParameterizedRoute {
    fn eq(&self, other: &Self) -> (equal: bool) {
        self.canonical == other.canonical
    }
}

impl vstd::std_specs::cmp::PartialEqSpecImpl for ParameterizedRoute {
    open spec fn obeys_eq_spec() -> bool {
        true
    }

    open spec fn eq_spec(&self, other: &Self) -> bool {
        self@ == other@
    }
}

impl ParameterizedRoute {
    /// The segments this route holds, as the specifications see them.
    pub closed spec fn segments_view(&self) -> Seq<SegmentView> {
        self.segments@.map_values(|g: ParameterizedSegment| g@)
    }

    /// The route's well-formedness: its canonical string is the rendering
    /// of the segments it holds. Every constructor establishes this.
    pub open spec fn wf(&self) -> bool {
        self@ == rendered_path(templates_of(self.segments_view()))
    }

    /// Creates a new `ParameterizedRoute` holding the source's segments and
    /// the canonical template they render to.
    pub fn new<R: ToParameterizedSegments>(route: R) -> (created: Self)
        ensures
            created.segments_view() == route.parameterized_segments_view(),
            created@ == rendered_path(templates_of(route.parameterized_segments_view())),
            created.wf(),
    {
        let segments = route.to_segments();
        let canonical = evaluate_segments(&segments);
        ParameterizedRoute { segments, canonical }
    }

    /// Joins a route onto an existing `ParameterizedRoute` returning the
    /// joined route: this route's segments first, then the other source's,
    /// in order, re-rendered canonically.
    pub fn join<R: ToParameterizedSegments>(&self, route: R) -> (joined: Self)
        ensures
            joined.segments_view() == self.segments_view() + route.parameterized_segments_view(),
            joined@ == rendered_path(
                templates_of(self.segments_view() + route.parameterized_segments_view()),
            ),
            joined.wf(),
    {
        let mut segments = self.to_segments();
        let mut other = route.to_segments();
        let ghost first = segments@;
        let ghost second = other@;
        segments.append(&mut other);
        proof {
            let viewfn = |g: ParameterizedSegment| g@;
            assert(segments@.map_values(viewfn) =~= first.map_values(viewfn) + second.map_values(
                viewfn,
            ));
        }
        let canonical = evaluate_segments(&segments);
        ParameterizedRoute { segments, canonical }
    }

    /// The segments of this route, as constructed.
    pub fn to_segments(&self) -> (segments: Vec<ParameterizedSegment>)
        ensures
            segments@.map_values(|g: ParameterizedSegment| g@) == self.segments_view(),
    {
        let ghost target = self.segments_view();
        let n = self.segments.len();
        let mut segments: Vec<ParameterizedSegment> = Vec::new();
        let mut k: usize = 0;
        proof {
            assert(segments@.map_values(|g: ParameterizedSegment| g@) =~= target.take(0));
        }
        while k < n
            invariant
                0 <= k <= n,
                n == self.segments@.len(),
                target == self.segments_view(),
                segments@.map_values(|g: ParameterizedSegment| g@) == target.take(k as int),
            decreases n - k,
        {
            let ghost before = segments@;
            segments.push(self.segments[k].duplicate());
            proof {
                assert(before.map_values(|g: ParameterizedSegment| g@).len() == k as int);
                assert(segments@.last()@ == target[k as int]);
                let extended = target.take(k as int + 1);
                assert forall|i: int| 0 <= i < segments@.len() implies segments@.map_values(
                    |g: ParameterizedSegment| g@,
                )[i] == #[trigger] extended[i] by {
                    if i < k {
                        assert(segments@[i] == before[i]);
                        assert(before.map_values(|g: ParameterizedSegment| g@)[i] == target.take(
                            k as int,
                        )[i]);
                    }
                }
                assert(segments@.map_values(|g: ParameterizedSegment| g@) =~= extended);
            }
            k = k + 1;
        }
        proof {
            assert(target.take(n as int) =~= target);
        }
        segments
    }

    /// The route's canonical template string.
    pub fn as_str(&self) -> (template: &str)
        ensures
            template@ == self@,
    {
        self.canonical.as_str()
    }
}

/// What populating every segment in order yields: the populated component
/// texts, or the name of the first parameter (left to right) that has no
/// value in the mapping.
pub open spec fn populated_parts(
    segments: Seq<SegmentView>,
    pairs: Seq<(Seq<char>, Seq<char>)>,
) -> Result<Seq<Seq<char>>, Seq<char>>
    decreases segments.len(),
{
    if segments.len() == 0 {
        Ok(Seq::<Seq<char>>::empty())
    } else {
        match populate_segment(segments[0], pairs) {
            Err(name) => Err(name),
            Ok(text) => match populated_parts(segments.drop_first(), pairs) {
                Err(name) => Err(name),
                Ok(rest) => Ok(seq![text] + rest),
            },
        }
    }
}

/// What populating a route's segments yields for a given mapping and
/// outcome: the populated components re-rendered and normalized as a fixed
/// route, or the first unpopulated parameter's name as an error.
pub open spec fn populate_outcome(
    segments: Seq<SegmentView>,
    pairs: Seq<(Seq<char>, Seq<char>)>,
    outcome: Result<WebRoute, WebRouteError>,
) -> bool {
    match populated_parts(segments, pairs) {
        Ok(parts) => outcome matches Ok(web) && web@ == canonical_path(rendered_path(parts)),
        Err(name) => outcome matches Err(e) && (e matches WebRouteError::UnpopulatedParam(p)
            && p@ == name),
    }
}

impl ParameterizedRoute {
    /// Populates the parameters of the route from an ordered string-keyed
    /// mapping: static segments pass through, each parameter is replaced by
    /// the first value stored under its name, and the first parameter (left
    /// to right) without a value fails the whole operation with
    /// `UnpopulatedParam`. The populated components are re-joined with `/`
    /// and normalized as a `WebRoute`.
    pub fn to_populated_route(&self, values: &Vec<(String, String)>) -> (populated: Result<
        WebRoute,
        WebRouteError,
    >)
        ensures
            populate_outcome(self.segments_view(), pairs_view(values@), populated),
    {
        let ghost pairs = pairs_view(values@);
        let segments = self.to_segments();
        let ghost segviews = segments@.map_values(|g: ParameterizedSegment| g@);
        let n = segments.len();
        let mut parts: Vec<String> = Vec::new();
        let mut k: usize = 0;
        proof {
            assert(segviews.skip(0) =~= segviews);
            assert(parts@.map_values(|t: String| t@) =~= Seq::<Seq<char>>::empty());
        }
        while k < n
            invariant
                0 <= k <= n,
                n == segments@.len(),
                pairs == pairs_view(values@),
                segviews == segments@.map_values(|g: ParameterizedSegment| g@),
                segviews == self.segments_view(),
                match populated_parts(segviews.skip(k as int), pairs) {
                    Ok(rest) => populated_parts(segviews, pairs) == Ok::<_, Seq<char>>(
                        parts@.map_values(|t: String| t@) + rest,
                    ),
                    Err(name) => populated_parts(segviews, pairs) == Err::<Seq<Seq<char>>, _>(
                        name,
                    ),
                },
            decreases n - k,
        {
            let segment = &segments[k];
            proof {
                assert(segviews.skip(k as int)[0] == segviews[k as int]);
                assert(segviews.skip(k as int).drop_first() =~= segviews.skip(k as int + 1));
                assert(segviews[k as int] == segment@);
            }
            let ghost before = parts@;
            match segment.to_populated(values) {
                Ok(text) => {
                    let ghost pushed = text@;
                    parts.push(text);
                    proof {
                        assert(parts@.map_values(|t: String| t@) =~= before.map_values(
                            |t: String| t@,
                        ) + seq![pushed]);
                        match populated_parts(segviews.skip(k as int + 1), pairs) {
                            Ok(rest) => {
                                assert((before.map_values(|t: String| t@) + seq![pushed]) + rest
                                    =~= before.map_values(|t: String| t@) + (seq![pushed] + rest));
                            },
                            Err(_) => {},
                        }
                    }
                },
                Err(unpopulated) => {
                    return Err(unpopulated);
                },
            }
            k = k + 1;
        }
        proof {
            assert(segviews.skip(n as int) =~= Seq::<SegmentView>::empty());
            assert(parts@.map_values(|t: String| t@) + Seq::<Seq<char>>::empty() =~=
                parts@.map_values(|t: String| t@));
        }
        let path = render_path_texts(&parts);
        Ok(WebRoute::new(path))
    }

    /// Attempts to populate the parameters of the route with their `values`
    /// and returns a `WebRoute`.
    ///
    /// `values` needs to be of an "Object" style (with key-value pairs):
    /// any other shape fails with `InvalidValue`. Within the object, string,
    /// number, and boolean entries keep their canonical string form, and
    /// every other entry is dropped; a parameter whose name then has no
    /// value fails with `UnpopulatedParam`.
    pub fn to_web_route(&self, values: &serde_json::Value) -> (populated: Result<
        WebRoute,
        WebRouteError,
    >)
        ensures
            match json_entries_of(*values) {
                None => populated matches Err(e) && e is InvalidValue,
                Some(decomposed) => populate_outcome(
                    self.segments_view(),
                    resolved_pairs(decomposed),
                    populated,
                ),
            },
    {
        match json_object_entries(values) {
            None => Err(WebRouteError::InvalidValue),
            Some(entries) => {
                let pairs = resolve_values(&entries);
                self.to_populated_route(&pairs)
            },
        }
    }
}

/// Convert `segments` into their normalized `String` route representation.
fn evaluate_segments(segments: &Vec<ParameterizedSegment>) -> (template: String)
    ensures
        template@ == rendered_path(
            templates_of(segments@.map_values(|g: ParameterizedSegment| g@)),
        ),
{
    let ghost target = templates_of(segments@.map_values(|g: ParameterizedSegment| g@));
    let n = segments.len();
    let mut texts: Vec<String> = Vec::new();
    let mut k: usize = 0;
    proof {
        assert(texts@.map_values(|t: String| t@) =~= target.take(0));
    }
    while k < n
        invariant
            0 <= k <= n,
            n == segments@.len(),
            target == templates_of(segments@.map_values(|g: ParameterizedSegment| g@)),
            texts@.map_values(|t: String| t@) == target.take(k as int),
        decreases n - k,
    {
        let segment = &segments[k];
        let ghost before = texts@;
        let text = segment.to_template();
        let ghost pushed = text@;
        texts.push(text);
        proof {
            assert(segments@.map_values(|g: ParameterizedSegment| g@)[k as int] == segments@[
                k as int]@);
            assert(pushed == target[k as int]);
            assert(before.map_values(|t: String| t@).len() == k as int);
            let extended = target.take(k as int + 1);
            assert forall|i: int| 0 <= i < texts@.len() implies texts@.map_values(|t: String| t@)[i]
                == #[trigger] extended[i] by {
                if i < k {
                    assert(texts@[i] == before[i]);
                    assert(before.map_values(|t: String| t@)[i] == target.take(k as int)[i]);
                }
            }
            assert(texts@.map_values(|t: String| t@) =~= extended);
        }
        k = k + 1;
    }
    proof {
        assert(target.take(n as int) =~= target);
    }
    render_path_texts(&texts)
}

/// Classifying each segment's template recovers exactly that segment.
proof fn lemma_classify_templates(segments: Seq<SegmentView>)
    requires
        forall|k: int| 0 <= k < segments.len() ==> segment_wf(#[trigger] segments[k]),
    ensures
        classify_components(templates_of(segments)) == segments,
    decreases segments.len(),
{
    if segments.len() == 0 {
        assert(templates_of(segments) =~= Seq::<Seq<char>>::empty());
        assert(classify_components(templates_of(segments)) =~= segments);
    } else {
        assert(templates_of(segments)[0] == template_of(segments[0]));
        assert(segment_wf(segments[0]));
        assert(forall|k: int|
            0 <= k < segments.drop_first().len() ==> segment_wf(
                #[trigger] segments.drop_first()[k],
            ));
        lemma_classify_templates(segments.drop_first());
        assert(templates_of(segments).drop_first() =~= templates_of(segments.drop_first()));
        assert(classify_components(templates_of(segments)) == seq![segments[0]]
            + segments.drop_first());
        assert(seq![segments[0]] + segments.drop_first() =~= segments);
    }
}

/// Parsing a rendered template recovers exactly the well-formed segments it
/// was rendered from.
pub proof fn lemma_template_round_trip(segments: Seq<SegmentView>)
    requires
        forall|k: int| 0 <= k < segments.len() ==> segment_wf(#[trigger] segments[k]),
    ensures
        parsed_segments(rendered_path(templates_of(segments))) == segments,
{
    let templates = templates_of(segments);
    let rendered = rendered_path(templates);
    assert(rendered[0] == '/');
    assert(rendered.drop_first() =~= join_with_slash(templates));
    lemma_classify_single(Seq::<char>::empty());
    if segments.len() == 0 {
        assert(templates =~= Seq::<Seq<char>>::empty());
        assert(rendered.drop_first() =~= Seq::<char>::empty());
        assert(split_on_slash(rendered) == seq![Seq::<char>::empty()] + split_on_slash(
            Seq::<char>::empty(),
        ));
        assert(split_on_slash(Seq::<char>::empty()) =~= seq![Seq::<char>::empty()]);
        assert(split_on_slash(rendered) =~= seq![Seq::<char>::empty()] + seq![
            Seq::<char>::empty(),
        ]);
        lemma_classify_components_concat(
            seq![Seq::<char>::empty()],
            seq![Seq::<char>::empty()],
        );
        assert(parsed_segments(rendered) =~= segments);
    } else {
        assert(forall|k: int|
            0 <= k < templates.len() ==> crate::text::has_no_slash(#[trigger] templates[k]));
        lemma_split_join_inverse(templates);
        assert(split_on_slash(rendered) == seq![Seq::<char>::empty()] + split_on_slash(
            join_with_slash(templates),
        ));
        lemma_classify_components_concat(seq![Seq::<char>::empty()], templates);
        lemma_classify_templates(segments);
        assert(parsed_segments(rendered) =~= segments);
    }
}

/// Canonicalization is idempotent: for any path text, rendering its parsed
/// segments and then constructing a route from that rendering again yields
/// the same canonical template.
pub proof fn lemma_canonical_template_idempotent(s: Seq<char>)
    ensures
        canonical_template(canonical_template(s)) == canonical_template(s),
{
    lemma_parsed_segments_wf(s);
    lemma_template_round_trip(parsed_segments(s));
}

/// A template already in canonical form renders back to itself: a route
/// constructed from it has exactly that template.
pub proof fn lemma_template_render_round_trip(template: Seq<char>)
    requires
        exists|s: Seq<char>| template == canonical_template(s),
    ensures
        canonical_template(template) == template,
{
    let s = choose|s: Seq<char>| template == canonical_template(s);
    lemma_canonical_template_idempotent(s);
}

/// Joining is associative on the underlying segment sequences — joining `x`
/// and then `y` onto a route carries the same segments as joining `x`
/// joined with `y` — and hence the final canonical output matches too.
pub proof fn lemma_join_associative(a: Seq<SegmentView>, x: Seq<SegmentView>, y: Seq<SegmentView>)
    ensures
        (a + x) + y == a + (x + y),
        rendered_path(templates_of((a + x) + y)) == rendered_path(templates_of(a + (x + y))),
{
    assert((a + x) + y =~= a + (x + y));
}

/// Joining text sources is associative even across an intermediate
/// rendering: rendering the join of two parsed texts and parsing that
/// rendering again loses nothing, so the canonical output matches whichever
/// way three texts are joined.
pub proof fn lemma_join_text_associative(a: Seq<char>, x: Seq<char>, y: Seq<char>)
    ensures
        rendered_path(
            templates_of(
                parsed_segments(rendered_path(templates_of(parsed_segments(a) + parsed_segments(x))))
                    + parsed_segments(y),
            ),
        ) == rendered_path(
            templates_of(
                parsed_segments(a) + parsed_segments(
                    rendered_path(templates_of(parsed_segments(x) + parsed_segments(y))),
                ),
            ),
        ),
{
    lemma_parsed_segments_wf(a);
    lemma_parsed_segments_wf(x);
    lemma_parsed_segments_wf(y);
    let first = parsed_segments(a);
    let second = parsed_segments(x);
    let third = parsed_segments(y);
    assert forall|k: int| 0 <= k < (first + second).len() implies segment_wf(
        #[trigger] (first + second)[k],
    ) by {
        if k < first.len() {
            assert((first + second)[k] == first[k]);
        } else {
            assert((first + second)[k] == second[k - first.len()]);
        }
    }
    assert forall|k: int| 0 <= k < (second + third).len() implies segment_wf(
        #[trigger] (second + third)[k],
    ) by {
        if k < second.len() {
            assert((second + third)[k] == second[k]);
        } else {
            assert((second + third)[k] == third[k - second.len()]);
        }
    }
    lemma_template_round_trip(first + second);
    lemma_template_round_trip(second + third);
    assert((first + second) + third =~= first + (second + third));
}

/// Joining a fixed route onto a parameterized route keeps the fixed
/// route's components as static segments — `join`'s contract appends them
/// as `statics_of(texts)` — and rendering yields their texts verbatim after
/// the template, even where a text holds `{` or `}`: classification only
/// happens when parsing text, never to already-typed static segments.
pub proof fn lemma_join_fixed_renders_verbatim(segs: Seq<SegmentView>, texts: Seq<Seq<char>>)
    requires
        texts.len() > 0,
    ensures
        forall|k: int|
            0 <= k < texts.len() ==> (segs + statics_of(texts))[segs.len() + k]
                == SegmentView::Static(#[trigger] texts[k]),
        rendered_path(templates_of(segs + statics_of(texts))) == if segs.len() == 0 {
            seq!['/'] + join_with_slash(texts)
        } else {
            rendered_path(templates_of(segs)) + seq!['/'] + join_with_slash(texts)
        },
{
    let combined = templates_of(segs + statics_of(texts));
    assert forall|k: int| 0 <= k < combined.len() implies combined[k] == (templates_of(segs)
        + texts)[k] by {
        if k < segs.len() {
            assert((segs + statics_of(texts))[k] == segs[k]);
        } else {
            assert((segs + statics_of(texts))[k] == statics_of(texts)[k - segs.len()]);
            assert(statics_of(texts)[k - segs.len()] == SegmentView::Static(
                texts[k - segs.len()],
            ));
        }
    }
    assert(combined =~= templates_of(segs) + texts);
    if segs.len() == 0 {
        assert(combined =~= texts);
    } else {
        lemma_join_concat(templates_of(segs), texts);
        assert(seq!['/'] + (join_with_slash(templates_of(segs)) + seq!['/'] + join_with_slash(
            texts,
        )) =~= (seq!['/'] + join_with_slash(templates_of(segs))) + seq!['/'] + join_with_slash(
            texts,
        ));
    }
}

} // verus!
