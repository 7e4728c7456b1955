//! Route construction, normalization, joining, and rendering.

use web_route::to_segments::{ToFixedSegments, ToParameterizedSegments};
use web_route::{ParameterizedRoute, WebRoute};

#[test]
fn str_should_normalize_double_slashes() {
    // Arrange
    let non_normalized = "/foo//bar";

    // Act
    let segments = ToFixedSegments::to_segments(&non_normalized);

    // Assert
    assert_eq!(segments.len(), 2);
}

#[test]
fn string_should_normalize_double_slashes() {
    // Arrange
    let non_normalized = "/foo//bar".to_string();

    // Act
    let segments = ToFixedSegments::to_segments(&non_normalized);

    // Assert
    assert_eq!(segments.len(), 2);
}

#[test]
fn to_segments_str_should_normalize_double_slashes() {
    // Arrange
    let non_normalized = "/foo//bar";

    // Act
    let segments = ToParameterizedSegments::to_segments(&non_normalized);

    // Assert
    assert_eq!(segments.len(), 2);
}

#[test]
fn to_segments_string_should_normalize_double_slashes() {
    // Arrange
    let non_normalized = "/foo//bar".to_string();

    // Act
    let segments = ToParameterizedSegments::to_segments(&non_normalized);

    // Assert
    assert_eq!(segments.len(), 2);
}

#[test]
fn slash_variants_render_identically() {
    let with_double = ParameterizedRoute::new("/a//b");
    let with_trailing = ParameterizedRoute::new("a/b/");
    let plain = ParameterizedRoute::new("/a/b");
    assert_eq!(with_double.as_str(), "/a/b");
    assert_eq!(with_trailing.as_str(), "/a/b");
    assert_eq!(plain.as_str(), "/a/b");
}

#[test]
fn web_route_slash_variants_render_identically() {
    assert_eq!(WebRoute::new("/a//b").as_str(), "/a/b");
    assert_eq!(WebRoute::new("a/b/").as_str(), "/a/b");
    assert_eq!(WebRoute::new("/a/b").as_str(), "/a/b");
}

#[test]
fn canonicalization_is_idempotent_on_messy_text() {
    let messy = "  x //{ id }/ {*rest} /b{ /";
    let once = ParameterizedRoute::new(messy);
    let twice = ParameterizedRoute::new(once.as_str());
    assert_eq!(once.as_str(), twice.as_str());
}

#[test]
fn canonical_template_renders_back_to_itself() {
    let template = "/some/route/{param}";
    let route = ParameterizedRoute::new(template);
    assert_eq!(route.as_str(), template);
}

#[test]
fn catchall_template_renders_back_to_itself() {
    let template = "/files/{*path}";
    let route = ParameterizedRoute::new(template);
    assert_eq!(route.as_str(), template);
}

#[test]
fn join_routes_matches_joining_text() {
    let route = ParameterizedRoute::new("/some/route/{param}");
    let nested_route = ParameterizedRoute::new("/a/nested/route");
    let joined_route = route.join(&nested_route);
    assert_eq!(joined_route, route.join("/a/nested/route"));
    assert_eq!(joined_route.as_str(), "/some/route/{param}/a/nested/route");
}

#[test]
fn web_route_join_normalizes_slashes() {
    let route = WebRoute::new("/some/route/");
    let nested_route = WebRoute::new("/a/nested/route");
    let joined_route = route.join(&nested_route);
    assert_eq!(joined_route.as_str(), "/some/route/a/nested/route");
}

#[test]
fn join_is_associative() {
    let route = ParameterizedRoute::new("/api/{version} ");
    let x = ParameterizedRoute::new("users//{id}");
    let y = ParameterizedRoute::new("/posts/{*rest}/");
    let left = route.join(&x).join(&y);
    let right = route.join(&x.join(&y));
    assert_eq!(left, right);
    assert_eq!(left.as_str(), "/api/{version}/users/{id}/posts/{*rest}");
}

#[test]
fn joined_fixed_route_components_stay_static() {
    let template = ParameterizedRoute::new("/api");
    let fixed = WebRoute::new("/{looks_like_a_param}/plain");
    let joined = template.join(&fixed);
    assert_eq!(joined.as_str(), "/api/{looks_like_a_param}/plain");
    let segments = joined.to_segments();
    assert_eq!(segments.len(), 3);
    assert!(matches!(
        &segments[1],
        web_route::parameterized_route::segment::ParameterizedSegment::Static(text)
            if text == "{looks_like_a_param}"
    ));
}

#[test]
fn web_route_keeps_component_text_verbatim() {
    let route = WebRoute::new("/a / b ");
    assert_eq!(route.as_str(), "/a / b ");
    assert_eq!(route.to_segments().len(), 2);
}

#[test]
fn as_template_route_returns_canonical_path() {
    let route = WebRoute::new("some/route/{param}");
    let template_route = route.as_template_route();
    assert_eq!(template_route, "/some/route/{param}");
}

#[test]
fn join_uuid_text_as_final_segment() {
    let hyphenated_uuid_str = "9a878802-7b0f-4531-bcbb-9a88d4324a5f";
    let sample_uuid = uuid::Uuid::parse_str(hyphenated_uuid_str).expect("should parse valid UUID");
    let base_route = WebRoute::new("/base/route");

    let new_route = base_route.join(web_route::web_route::segment::WebSegment::from_uuid(
        &sample_uuid,
    ).to_evaluated());
    let segments = new_route.to_segments();
    let (last_segment, original_segments) =
        segments.split_last().expect("segments should not be empty");

    assert_eq!(
        last_segment.to_evaluated(),
        hyphenated_uuid_str.to_owned(),
        "joined UUID should be the final segment"
    );
    assert_eq!(
        original_segments,
        &base_route.to_segments()[..],
        "original segments should not be modified"
    );
}

#[test]
fn empty_and_bare_slash_routes_render_as_root() {
    assert_eq!(ParameterizedRoute::new("").as_str(), "/");
    assert_eq!(ParameterizedRoute::new("/").as_str(), "/");
    assert_eq!(WebRoute::new("").as_str(), "/");
    assert_eq!(WebRoute::new("//").as_str(), "/");
}

#[test]
fn brace_edge_components_classify_by_their_markers() {
    assert_eq!(ParameterizedRoute::new("/{}").as_str(), "/{}");
    assert_eq!(ParameterizedRoute::new("/{*}").as_str(), "/{*}");
    assert_eq!(ParameterizedRoute::new("/{").as_str(), "/{");
    assert_eq!(ParameterizedRoute::new("/x}").as_str(), "/x}");
}
