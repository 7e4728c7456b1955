//! An individual segment of a route template, and its classification.

use vstd::prelude::*;
use vstd::string::{StrSliceExecFns, StringExecFns};
use crate::error::WebRouteError;
use crate::text::{has_no_slash, trim_component, trim_text};
use crate::text::{lemma_trim_identity, lemma_trim_no_slash, lemma_trim_text_clean};
use crate::uuid_text::{is_uuid_text, lemma_uuid_text_component, uuid_hyphenated};
use crate::values::{lookup_pairs, lookup_value, pairs_view};
use crate::web_route::segment::WebSegment;

verus! {

/// The shape of a segment as the specifications see it.
pub enum SegmentView {
    NamedParam(Seq<char>),
    CatchallParam(Seq<char>),
    Static(Seq<char>),
}

/// Represents an individual segment of a route (i.e. the bit between the
/// `/`).
///
/// Handles converting it between the templated representation of the
/// segment, and the populated version.
#[derive(Debug, Clone, PartialEq)]
pub enum ParameterizedSegment {
    NamedParam(String),
    CatchallParam(String),
    Static(String),
}

impl View for ParameterizedSegment {
    type V = SegmentView;

    open spec fn view(&self) -> SegmentView {
        match self {
            ParameterizedSegment::NamedParam(name) => SegmentView::NamedParam(name@),
            ParameterizedSegment::CatchallParam(name) => SegmentView::CatchallParam(name@),
            ParameterizedSegment::Static(text) => SegmentView::Static(text@),
        }
    }
}

/// How one already-split path component classifies. The component is trimmed
/// at its boundaries first; an empty component is rejected, which is what
/// keeps consecutive separators out of a route. `{*name}` is a catchall
/// parameter, `{name}` a named parameter, and anything else static text.
pub open spec fn classify_component(raw: Seq<char>) -> Option<SegmentView> {
    let c = trim_text(raw);
    if c.len() == 0 {
        None
    } else if c.len() >= 3 && c[0] == '{' && c[1] == '*' && c.last() == '}' {
        Some(SegmentView::CatchallParam(c.subrange(2, c.len() - 1)))
    } else if c.len() >= 2 && c[0] == '{' && c.last() == '}' {
        Some(SegmentView::NamedParam(c.subrange(1, c.len() - 1)))
    } else {
        Some(SegmentView::Static(c))
    }
}

/// The templated text of a segment: `{name}` for a named parameter,
/// `{*name}` for a catchall parameter, the text itself for static text.
pub open spec fn template_of(seg: SegmentView) -> Seq<char> {
    match seg {
        SegmentView::NamedParam(name) => seq!['{'] + name + seq!['}'],
        SegmentView::CatchallParam(name) => seq!['{', '*'] + name + seq!['}'],
        SegmentView::Static(text) => text,
    }
}

/// A segment whose template is a faithful path component: non-empty, free
/// of separators, and classifying back to the segment itself. Every segment
/// that classification produces is of this kind.
pub open spec fn segment_wf(seg: SegmentView) -> bool {
    &&& template_of(seg).len() > 0
    &&& has_no_slash(template_of(seg))
    &&& classify_component(template_of(seg)) == Some(seg)
}

/// Classification trims, and its segment's template is exactly the trimmed
/// component; for a separator-free component the segment is well-formed.
pub proof fn lemma_classified_segment_wf(raw: Seq<char>)
    requires
        classify_component(raw) is Some,
    ensures
        template_of(classify_component(raw)->Some_0) == trim_text(raw),
        has_no_slash(raw) ==> segment_wf(classify_component(raw)->Some_0),
{
    let c = trim_text(raw);
    let seg = classify_component(raw)->Some_0;
    lemma_trim_text_clean(raw);
    lemma_trim_identity(c);
    if c.len() >= 3 && c[0] == '{' && c[1] == '*' && c.last() == '}' {
        assert(seq!['{', '*'] + c.subrange(2, c.len() - 1) + seq!['}'] =~= c);
    } else if c.len() >= 2 && c[0] == '{' && c.last() == '}' {
        assert(seq!['{'] + c.subrange(1, c.len() - 1) + seq!['}'] =~= c);
    }
    assert(template_of(seg) == c);
    if has_no_slash(raw) {
        lemma_trim_no_slash(raw);
    }
}

/// What populating one segment yields: static text passes through, a
/// parameter is replaced by the first value stored under its name, and a
/// parameter without a value reports that name.
pub open spec fn populate_segment(
    seg: SegmentView,
    pairs: Seq<(Seq<char>, Seq<char>)>,
) -> Result<Seq<char>, Seq<char>> {
    match seg {
        SegmentView::NamedParam(name) => match lookup_pairs(pairs, name) {
            Some(value) => Ok(value),
            None => Err(name),
        },
        SegmentView::CatchallParam(name) => match lookup_pairs(pairs, name) {
            Some(value) => Ok(value),
            None => Err(name),
        },
        SegmentView::Static(text) => Ok(text),
    }
}

impl ParameterizedSegment {
    /// Classifies one already-split path component, exactly as
    /// `classify_component` describes; an empty (or whitespace-only)
    /// component is rejected.
    pub fn from_component(segment: &str) -> (parsed: Result<ParameterizedSegment, ()>)
        ensures
            match classify_component(segment@) {
                Some(seg) => parsed matches Ok(p) && p@ == seg,
                None => parsed is Err,
            },
    {
        let t = trim_component(segment);
        let n = t.unicode_len();
        if n == 0 {
            return Err(());
        }
        if n >= 3 && t.get_char(0) == '{' && t.get_char(1) == '*' && t.get_char(n - 1) == '}' {
            let name = t.substring_char(2, n - 1);
            Ok(ParameterizedSegment::CatchallParam(name.to_owned()))
        } else if n >= 2 && t.get_char(0) == '{' && t.get_char(n - 1) == '}' {
            let name = t.substring_char(1, n - 1);
            Ok(ParameterizedSegment::NamedParam(name.to_owned()))
        } else {
            Ok(ParameterizedSegment::Static(t.to_owned()))
        }
    }

    /// Converts the segment into its "templated" representation so that it
    /// can be used in route definitions.
    pub fn to_template(&self) -> (template: String)
        ensures
            template@ == template_of(self@),
    {
        match self {
            ParameterizedSegment::NamedParam(name) => {
                let text = String::from_str("{").concat(name.as_str()).concat("}");
                proof {
                    reveal_strlit("{");
                    reveal_strlit("}");
                    assert(text@ =~= template_of(self@));
                }
                text
            },
            ParameterizedSegment::CatchallParam(name) => {
                let text = String::from_str("{*").concat(name.as_str()).concat("}");
                proof {
                    reveal_strlit("{*");
                    reveal_strlit("}");
                    assert(text@ =~= template_of(self@));
                }
                text
            },
            ParameterizedSegment::Static(value) => value.clone(),
        }
    }

    /// Attempts to populate a parameter based segment with a value in the
    /// `param_value_map`. If the segment is static, its internal value is
    /// returned.
    pub fn to_populated(&self, param_value_map: &Vec<(String, String)>) -> (populated: Result<
        String,
        WebRouteError,
    >)
        ensures
            match populate_segment(self@, pairs_view(param_value_map@)) {
                Ok(text) => populated matches Ok(value) && value@ == text,
                Err(name) => populated matches Err(e) && (e matches
                WebRouteError::UnpopulatedParam(p) && p@ == name),
            },
    {
        match self {
            ParameterizedSegment::NamedParam(param) => match lookup_value(param_value_map, param) {
                Some(value) => Ok(value),
                None => Err(WebRouteError::UnpopulatedParam(param.clone())),
            },
            ParameterizedSegment::CatchallParam(param) => match lookup_value(
                param_value_map,
                param,
            ) {
                Some(value) => Ok(value),
                None => Err(WebRouteError::UnpopulatedParam(param.clone())),
            },
            ParameterizedSegment::Static(value) => Ok(value.clone()),
        }
    }

    /// A segment equal to this one, holding a fresh copy of its text.
    pub fn duplicate(&self) -> (copy: ParameterizedSegment)
        ensures
            copy@ == self@,
    {
        match self {
            ParameterizedSegment::NamedParam(name) => ParameterizedSegment::NamedParam(
                name.clone(),
            ),
            ParameterizedSegment::CatchallParam(name) => ParameterizedSegment::CatchallParam(
                name.clone(),
            ),
            ParameterizedSegment::Static(text) => ParameterizedSegment::Static(text.clone()),
        }
    }

    /// A fixed segment reclassified: its text becomes a static segment
    /// verbatim, whatever characters it holds.
    pub fn from_fixed(segment: &WebSegment) -> (converted: ParameterizedSegment)
        ensures
            converted@ == SegmentView::Static(segment@),
    {
        ParameterizedSegment::Static(segment.to_evaluated())
    }

    /// The segment standing for a UUID: a static segment holding the
    /// hyphenated lowercase text. Such a segment is always well-formed.
    pub fn from_uuid(id: &uuid::Uuid) -> (segment: ParameterizedSegment)
        ensures
            segment@ matches SegmentView::Static(text) && is_uuid_text(text),
            segment_wf(segment@),
    {
        let text = uuid_hyphenated(id);
        proof {
            lemma_uuid_text_component(text@);
            lemma_trim_identity(text@);
        }
        ParameterizedSegment::Static(text)
    }
}

} // verus!
