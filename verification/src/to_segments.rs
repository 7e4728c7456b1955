//! Defines what can be used to create and join routes: the two conversion
//! capabilities, and the verified splitting of raw text into segments.

use vstd::prelude::*;
use vstd::string::StrSliceExecFns;
use crate::parameterized_route::segment::{
    classify_component, lemma_classified_segment_wf, segment_wf, ParameterizedSegment, SegmentView,
};
use crate::text::{
    has_no_slash, lemma_split_components_have_no_slash, lemma_split_concat,
    lemma_split_without_slash, split_on_slash,
};
use crate::web_route::segment::WebSegment;

verus! {

/// The classified segments of the given components, in order, dropping
/// every component that classification rejects.
pub open spec fn classify_components(components: Seq<Seq<char>>) -> Seq<SegmentView>
    decreases components.len(),
{
    if components.len() == 0 {
        Seq::<SegmentView>::empty()
    } else {
        let rest = classify_components(components.drop_first());
        match classify_component(components[0]) {
            Some(seg) => seq![seg] + rest,
            None => rest,
        }
    }
}

/// The non-empty components among the given ones, in order.
pub open spec fn nonempty_components(components: Seq<Seq<char>>) -> Seq<Seq<char>>
    decreases components.len(),
{
    if components.len() == 0 {
        Seq::<Seq<char>>::empty()
    } else {
        let rest = nonempty_components(components.drop_first());
        if components[0].len() > 0 {
            seq![components[0]] + rest
        } else {
            rest
        }
    }
}

/// The parameterized segments that raw path text yields: split on `/`,
/// classify each component, drop the rejected ones.
pub open spec fn parsed_segments(s: Seq<char>) -> Seq<SegmentView> {
    classify_components(split_on_slash(s))
}

/// The fixed components that raw path text yields: split on `/` and drop
/// the empty components.
pub open spec fn fixed_components(s: Seq<char>) -> Seq<Seq<char>> {
    nonempty_components(split_on_slash(s))
}

/// Classifying components distributes over concatenation.
pub proof fn lemma_classify_components_concat(a: Seq<Seq<char>>, b: Seq<Seq<char>>)
    ensures
        classify_components(a + b) == classify_components(a) + classify_components(b),
    decreases a.len(),
{
    if a.len() == 0 {
        assert(a + b =~= b);
        assert(classify_components(a) + classify_components(b) =~= classify_components(b));
    } else {
        lemma_classify_components_concat(a.drop_first(), b);
        assert((a + b).drop_first() =~= a.drop_first() + b);
        assert((a + b)[0] == a[0]);
        match classify_component(a[0]) {
            Some(seg) => {
                assert(seq![seg] + (classify_components(a.drop_first()) + classify_components(b))
                    =~= (seq![seg] + classify_components(a.drop_first())) + classify_components(
                    b,
                ));
            },
            None => {},
        }
    }
}

/// Keeping non-empty components distributes over concatenation.
pub proof fn lemma_nonempty_components_concat(a: Seq<Seq<char>>, b: Seq<Seq<char>>)
    ensures
        nonempty_components(a + b) == nonempty_components(a) + nonempty_components(b),
    decreases a.len(),
{
    if a.len() == 0 {
        assert(a + b =~= b);
        assert(nonempty_components(a) + nonempty_components(b) =~= nonempty_components(b));
    } else {
        lemma_nonempty_components_concat(a.drop_first(), b);
        assert((a + b).drop_first() =~= a.drop_first() + b);
        assert((a + b)[0] == a[0]);
        if a[0].len() > 0 {
            assert(seq![a[0]] + (nonempty_components(a.drop_first()) + nonempty_components(b))
                =~= (seq![a[0]] + nonempty_components(a.drop_first())) + nonempty_components(b));
        }
    }
}

/// One component's contribution to classification.
pub proof fn lemma_classify_single(component: Seq<char>)
    ensures
        classify_components(seq![component]) == match classify_component(component) {
            Some(seg) => seq![seg],
            None => Seq::<SegmentView>::empty(),
        },
{
    let single = seq![component];
    assert(single.len() == 1);
    assert(single[0] == component);
    assert(single.drop_first() =~= Seq::<Seq<char>>::empty());
    assert(classify_components(Seq::<Seq<char>>::empty()) == Seq::<SegmentView>::empty());
    match classify_component(component) {
        Some(seg) => {
            assert(classify_components(single) == seq![seg] + classify_components(
                single.drop_first(),
            ));
            assert(seq![seg] + Seq::<SegmentView>::empty() =~= seq![seg]);
        },
        None => {
            assert(classify_components(single) == classify_components(single.drop_first()));
        },
    }
}

/// One component's contribution to the fixed components.
proof fn lemma_nonempty_single(component: Seq<char>)
    ensures
        nonempty_components(seq![component]) == if component.len() > 0 {
            seq![component]
        } else {
            Seq::<Seq<char>>::empty()
        },
{
    let single = seq![component];
    assert(single.len() == 1);
    assert(single[0] == component);
    assert(single.drop_first() =~= Seq::<Seq<char>>::empty());
    assert(nonempty_components(Seq::<Seq<char>>::empty()) == Seq::<Seq<char>>::empty());
    if component.len() > 0 {
        assert(nonempty_components(single) == seq![component] + nonempty_components(
            single.drop_first(),
        ));
        assert(seq![component] + Seq::<Seq<char>>::empty() =~= seq![component]);
    } else {
        assert(nonempty_components(single) == nonempty_components(single.drop_first()));
    }
}

/// Every segment that raw path text yields is well-formed.
pub proof fn lemma_parsed_segments_wf(s: Seq<char>)
    ensures
        forall|k: int|
            0 <= k < parsed_segments(s).len() ==> segment_wf(#[trigger] parsed_segments(s)[k]),
{
    lemma_split_components_have_no_slash(s);
    lemma_classified_components_wf(split_on_slash(s));
}

/// Classification of separator-free components yields well-formed segments.
proof fn lemma_classified_components_wf(components: Seq<Seq<char>>)
    requires
        forall|k: int| 0 <= k < components.len() ==> has_no_slash(#[trigger] components[k]),
    ensures
        forall|k: int|
            0 <= k < classify_components(components).len() ==> segment_wf(
                #[trigger] classify_components(components)[k],
            ),
    decreases components.len(),
{
    if components.len() > 0 {
        assert(has_no_slash(components[0]));
        lemma_classified_components_wf(components.drop_first());
        let rest = classify_components(components.drop_first());
        match classify_component(components[0]) {
            Some(seg) => {
                lemma_classified_segment_wf(components[0]);
                assert forall|k: int| 0 <= k < classify_components(components).len() implies
                    segment_wf(#[trigger] classify_components(components)[k]) by {
                    if k == 0 {
                        assert(classify_components(components)[0] == seg);
                    } else {
                        assert(classify_components(components)[k] == rest[k - 1]);
                    }
                }
            },
            None => {},
        }
    }
}

/// Splits raw text on `/` and classifies each component, dropping the
/// rejected ones, exactly as `parsed_segments` describes.
pub(crate) fn parse_parameterized_text(s: &str) -> (segments: Vec<ParameterizedSegment>)
    ensures
        segments@.map_values(|g: ParameterizedSegment| g@) == parsed_segments(s@),
{
    let ghost viewfn = |g: ParameterizedSegment| g@;
    let n = s.unicode_len();
    let mut segments: Vec<ParameterizedSegment> = Vec::new();
    let mut start: usize = 0;
    let mut i: usize = 0;
    proof {
        assert(s@.skip(0) =~= s@);
        assert(segments@.map_values(viewfn) + classify_components(split_on_slash(s@)) =~=
            classify_components(split_on_slash(s@)));
    }
    while i < n
        invariant
            0 <= start <= i <= n,
            n == s@.len(),
            has_no_slash(s@.subrange(start as int, i as int)),
            parsed_segments(s@) == segments@.map_values(viewfn) + classify_components(
                split_on_slash(s@.skip(start as int)),
            ),
            viewfn == (|g: ParameterizedSegment| g@),
        decreases n - i,
    {
        if s.get_char(i) == '/' {
            let component = s.substring_char(start, i);
            proof {
                let comp = s@.subrange(start as int, i as int);
                let after = s@.skip(i as int + 1);
                assert(s@.skip(start as int) =~= comp + seq!['/'] + after);
                lemma_split_concat(comp, after);
                assert(seq![comp] + split_on_slash(after) =~= seq![comp] + split_on_slash(after));
                lemma_classify_components_concat(seq![comp], split_on_slash(after));
                lemma_classify_single(comp);
            }
            let ghost before = segments@;
            match ParameterizedSegment::from_component(component) {
                Ok(seg) => {
                    segments.push(seg);
                    proof {
                        assert(segments@.map_values(viewfn) =~= before.map_values(viewfn) + seq![
                            segments@.last()@,
                        ]);
                        assert((before.map_values(viewfn) + seq![segments@.last()@])
                            + classify_components(split_on_slash(s@.skip(i as int + 1))) =~=
                            before.map_values(viewfn) + (seq![segments@.last()@]
                            + classify_components(split_on_slash(s@.skip(i as int + 1)))));
                    }
                },
                Err(_) => {},
            }
            start = i + 1;
            proof {
                assert(has_no_slash(s@.subrange(start as int, start as int)));
            }
        } else {
            proof {
                let ext = s@.subrange(start as int, i as int + 1);
                assert(forall|k: int| 0 <= k < ext.len() ==> ext[k] == s@[start + k]);
                assert(has_no_slash(ext));
            }
        }
        i = i + 1;
    }
    let component = s.substring_char(start, n);
    proof {
        assert(s@.skip(start as int) =~= s@.subrange(start as int, n as int));
        lemma_split_without_slash(s@.subrange(start as int, n as int));
        lemma_classify_single(s@.subrange(start as int, n as int));
    }
    let ghost before = segments@;
    match ParameterizedSegment::from_component(component) {
        Ok(seg) => {
            segments.push(seg);
            proof {
                assert(segments@.map_values(viewfn) =~= before.map_values(viewfn) + seq![
                    segments@.last()@,
                ]);
            }
        },
        Err(_) => {
            proof {
                assert(segments@.map_values(viewfn) + Seq::<SegmentView>::empty() =~=
                    segments@.map_values(viewfn));
            }
        },
    }
    segments
}

/// Splits raw text on `/` and keeps each non-empty component verbatim,
/// exactly as `fixed_components` describes.
pub(crate) fn parse_fixed_text(s: &str) -> (segments: Vec<WebSegment>)
    ensures
        segments@.map_values(|g: WebSegment| g@) == fixed_components(s@),
{
    let ghost viewfn = |g: WebSegment| g@;
    let n = s.unicode_len();
    let mut segments: Vec<WebSegment> = Vec::new();
    let mut start: usize = 0;
    let mut i: usize = 0;
    proof {
        assert(s@.skip(0) =~= s@);
        assert(segments@.map_values(viewfn) + nonempty_components(split_on_slash(s@)) =~=
            nonempty_components(split_on_slash(s@)));
    }
    while i < n
        invariant
            0 <= start <= i <= n,
            n == s@.len(),
            has_no_slash(s@.subrange(start as int, i as int)),
            fixed_components(s@) == segments@.map_values(viewfn) + nonempty_components(
                split_on_slash(s@.skip(start as int)),
            ),
            viewfn == (|g: WebSegment| g@),
        decreases n - i,
    {
        if s.get_char(i) == '/' {
            let component = s.substring_char(start, i);
            proof {
                let comp = s@.subrange(start as int, i as int);
                let after = s@.skip(i as int + 1);
                assert(s@.skip(start as int) =~= comp + seq!['/'] + after);
                lemma_split_concat(comp, after);
                lemma_nonempty_components_concat(seq![comp], split_on_slash(after));
                lemma_nonempty_single(comp);
            }
            let ghost before = segments@;
            match WebSegment::from_component(component) {
                Ok(seg) => {
                    segments.push(seg);
                    proof {
                        assert(segments@.map_values(viewfn) =~= before.map_values(viewfn) + seq![
                            segments@.last()@,
                        ]);
                        assert((before.map_values(viewfn) + seq![segments@.last()@])
                            + nonempty_components(split_on_slash(s@.skip(i as int + 1))) =~=
                            before.map_values(viewfn) + (seq![segments@.last()@]
                            + nonempty_components(split_on_slash(s@.skip(i as int + 1)))));
                    }
                },
                Err(_) => {},
            }
            start = i + 1;
            proof {
                assert(has_no_slash(s@.subrange(start as int, start as int)));
            }
        } else {
            proof {
                let ext = s@.subrange(start as int, i as int + 1);
                assert(forall|k: int| 0 <= k < ext.len() ==> ext[k] == s@[start + k]);
                assert(has_no_slash(ext));
            }
        }
        i = i + 1;
    }
    let component = s.substring_char(start, n);
    proof {
        assert(s@.skip(start as int) =~= s@.subrange(start as int, n as int));
        lemma_split_without_slash(s@.subrange(start as int, n as int));
        lemma_nonempty_single(s@.subrange(start as int, n as int));
    }
    let ghost before = segments@;
    match WebSegment::from_component(component) {
        Ok(seg) => {
            segments.push(seg);
            proof {
                assert(segments@.map_values(viewfn) =~= before.map_values(viewfn) + seq![
                    segments@.last()@,
                ]);
            }
        },
        Err(_) => {
            proof {
                assert(segments@.map_values(viewfn) + Seq::<Seq<char>>::empty() =~=
                    segments@.map_values(viewfn));
            }
        },
    }
    segments
}

/// The capability of yielding a sequence of fixed segments.
pub trait ToFixedSegments {
    /// The component texts that this source stands for.
    spec fn fixed_segments_view(&self) -> Seq<Seq<char>>;

    /// Defines how to convert something into a `Vec` of `WebSegment`s.
    fn to_segments(&self) -> (segments: Vec<WebSegment>)
        ensures
            segments@.map_values(|g: WebSegment| g@) == self.fixed_segments_view(),
    ;
}

impl ToFixedSegments for &str {
    open spec fn fixed_segments_view(&self) -> Seq<Seq<char>> {
        fixed_components(self@)
    }

    fn to_segments(&self) -> (segments: Vec<WebSegment>) {
        parse_fixed_text(self)
    }
}

impl ToFixedSegments for String {
    open spec fn fixed_segments_view(&self) -> Seq<Seq<char>> {
        fixed_components(self@)
    }

    fn to_segments(&self) -> (segments: Vec<WebSegment>) {
        parse_fixed_text(self.as_str())
    }
}

impl ToFixedSegments for crate::web_route::route::WebRoute {
    open spec fn fixed_segments_view(&self) -> Seq<Seq<char>> {
        fixed_components(self@)
    }

    fn to_segments(&self) -> (segments: Vec<WebSegment>) {
        crate::web_route::route::WebRoute::to_segments(self)
    }
}

impl ToFixedSegments for &crate::web_route::route::WebRoute {
    open spec fn fixed_segments_view(&self) -> Seq<Seq<char>> {
        fixed_components(self@)
    }

    fn to_segments(&self) -> (segments: Vec<WebSegment>) {
        crate::web_route::route::WebRoute::to_segments(self)
    }
}

/// The capability of yielding a sequence of parameterized segments.
pub trait ToParameterizedSegments {
    /// The segments that this source stands for.
    spec fn parameterized_segments_view(&self) -> Seq<SegmentView>;

    /// Defines how to convert something into a `Vec` of
    /// `ParameterizedSegment`s.
    fn to_segments(&self) -> (segments: Vec<ParameterizedSegment>)
        ensures
            segments@.map_values(|g: ParameterizedSegment| g@)
                == self.parameterized_segments_view(),
    ;
}

impl ToParameterizedSegments for &str {
    open spec fn parameterized_segments_view(&self) -> Seq<SegmentView> {
        parsed_segments(self@)
    }

    fn to_segments(&self) -> (segments: Vec<ParameterizedSegment>) {
        parse_parameterized_text(self)
    }
}

impl ToParameterizedSegments for String {
    open spec fn parameterized_segments_view(&self) -> Seq<SegmentView> {
        parsed_segments(self@)
    }

    fn to_segments(&self) -> (segments: Vec<ParameterizedSegment>) {
        parse_parameterized_text(self.as_str())
    }
}

/// The segment shapes that a fixed route stands for when it is used as a
/// parameterized source: each component as a static segment, verbatim.
pub open spec fn statics_of(texts: Seq<Seq<char>>) -> Seq<SegmentView> {
    texts.map_values(|t: Seq<char>| SegmentView::Static(t))
}

/// Reclassifies a fixed route's segments as static segments, verbatim.
pub(crate) fn fixed_to_parameterized(fixed: &Vec<WebSegment>) -> (segments: Vec<
    ParameterizedSegment,
>)
    ensures
        segments@.map_values(|g: ParameterizedSegment| g@) == statics_of(
            fixed@.map_values(|g: WebSegment| g@),
        ),
{
    let ghost target = statics_of(fixed@.map_values(|g: WebSegment| g@));
    let n = fixed.len();
    let mut segments: Vec<ParameterizedSegment> = Vec::new();
    let mut k: usize = 0;
    proof {
        assert(segments@.map_values(|g: ParameterizedSegment| g@) =~= target.take(0));
    }
    while k < n
        invariant
            0 <= k <= n,
            n == fixed@.len(),
            target == statics_of(fixed@.map_values(|g: WebSegment| g@)),
            segments@.map_values(|g: ParameterizedSegment| g@) == target.take(k as int),
        decreases n - k,
    {
        let ghost before = segments@;
        let converted = ParameterizedSegment::from_fixed(&fixed[k]);
        let ghost conv = converted;
        segments.push(converted);
        proof {
            assert(before.map_values(|g: ParameterizedSegment| g@).len() == k as int);
            assert(before.len() == k as int);
            assert(segments@ == before.push(conv));
            assert(fixed@.map_values(|g: WebSegment| g@)[k as int] == fixed@[k as int]@);
            assert(target[k as int] == SegmentView::Static(fixed@[k as int]@));
            assert(conv@ == target[k as int]);
            let extended = target.take(k as int + 1);
            assert forall|i: int| 0 <= i < segments@.len() implies segments@.map_values(
                |g: ParameterizedSegment| g@,
            )[i] == #[trigger] extended[i] by {
                if i < k {
                    assert(segments@[i] == before[i]);
                    assert(before.map_values(|g: ParameterizedSegment| g@)[i] == target.take(
                        k as int,
                    )[i]);
                } else {
                    assert(segments@[i] == conv);
                }
            }
            assert(segments@.map_values(|g: ParameterizedSegment| g@) =~= extended);
        }
        k = k + 1;
    }
    proof {
        assert(target.take(n as int) =~= target);
    }
    segments
}

impl ToParameterizedSegments for crate::parameterized_route::route::ParameterizedRoute {
    open spec fn parameterized_segments_view(&self) -> Seq<SegmentView> {
        self.segments_view()
    }

    fn to_segments(&self) -> (segments: Vec<ParameterizedSegment>) {
        crate::parameterized_route::route::ParameterizedRoute::to_segments(self)
    }
}

impl ToParameterizedSegments for &crate::parameterized_route::route::ParameterizedRoute {
    open spec fn parameterized_segments_view(&self) -> Seq<SegmentView> {
        (*self).segments_view()
    }

    fn to_segments(&self) -> (segments: Vec<ParameterizedSegment>) {
        crate::parameterized_route::route::ParameterizedRoute::to_segments(self)
    }
}

impl ToParameterizedSegments for crate::web_route::route::WebRoute {
    open spec fn parameterized_segments_view(&self) -> Seq<SegmentView> {
        statics_of(fixed_components(self@))
    }

    fn to_segments(&self) -> (segments: Vec<ParameterizedSegment>) {
        let fixed = crate::web_route::route::WebRoute::to_segments(self);
        fixed_to_parameterized(&fixed)
    }
}

impl ToParameterizedSegments for &crate::web_route::route::WebRoute {
    open spec fn parameterized_segments_view(&self) -> Seq<SegmentView> {
        statics_of(fixed_components(self@))
    }

    fn to_segments(&self) -> (segments: Vec<ParameterizedSegment>) {
        let fixed = crate::web_route::route::WebRoute::to_segments(self);
        fixed_to_parameterized(&fixed)
    }
}

} // verus!
