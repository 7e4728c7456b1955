//! Segment classification and templating.

use web_route::parameterized_route::segment::ParameterizedSegment;
use web_route::web_route::segment::WebSegment;

#[test]
fn should_correctly_template_named_parameter() {
    // Arrange
    let segment = ParameterizedSegment::NamedParam("named_param".to_owned());

    // Act
    let template = segment.to_template();

    // Assert
    assert_eq!(template, "{named_param}");
}

#[test]
fn should_correctly_template_catchall_parameter() {
    // Arrange
    let segment = ParameterizedSegment::CatchallParam("catchall_param".to_owned());

    // Act
    let template = segment.to_template();

    // Assert
    assert_eq!(template, "{*catchall_param}");
}

#[test]
fn should_correctly_template_static_segment() {
    // Arrange
    let segment = ParameterizedSegment::Static("static".to_owned());

    // Act
    let template = segment.to_template();

    // Assert
    assert_eq!(template, "static");
}

#[test]
fn should_parse_named_parameter() {
    // Act
    let segment = ParameterizedSegment::from_component("{named_param}").unwrap();

    // Assert
    assert!(matches!(segment, ParameterizedSegment::NamedParam(param) if param == "named_param"));
}

#[test]
fn should_parse_catchall_parameter() {
    // Act
    let segment = ParameterizedSegment::from_component("{*catchall_param}").unwrap();

    // Assert
    assert!(
        matches!(segment, ParameterizedSegment::CatchallParam(param) if param == "catchall_param")
    );
}

#[test]
fn should_parse_static_segment() {
    // Act
    let segment = ParameterizedSegment::from_component("static").unwrap();

    // Assert
    assert!(matches!(segment, ParameterizedSegment::Static(value) if value == "static"));
}

#[test]
fn should_not_parse_empty_segment() {
    // Act
    let res = ParameterizedSegment::from_component("");

    // Assert
    assert!(res.is_err());
}

#[test]
fn segment_should_correctly_template_named_parameter() {
    // Arrange
    let segment = ParameterizedSegment::NamedParam("named_param".to_owned());

    // Act
    let template = segment.to_template();

    // Assert
    assert_eq!(template, "{named_param}");
}

#[test]
fn segment_should_correctly_template_catchall_parameter() {
    // Arrange
    let segment = ParameterizedSegment::CatchallParam("catchall_param".to_owned());

    // Act
    let template = segment.to_template();

    // Assert
    assert_eq!(template, "{*catchall_param}");
}

#[test]
fn segment_should_correctly_template_static_segment() {
    // Arrange
    let segment = ParameterizedSegment::Static("static".to_owned());

    // Act
    let template = segment.to_template();

    // Assert
    assert_eq!(template, "static");
}

#[test]
fn segment_should_parse_named_parameter() {
    // Act
    let segment = ParameterizedSegment::from_component("{named_param}").unwrap();

    // Assert
    assert!(matches!(segment, ParameterizedSegment::NamedParam(param) if param == "named_param"));
}

#[test]
fn segment_should_parse_catchall_parameter() {
    // Act
    let segment = ParameterizedSegment::from_component("{*catchall_param}").unwrap();

    // Assert
    assert!(
        matches!(segment, ParameterizedSegment::CatchallParam(param) if param == "catchall_param")
    );
}

#[test]
fn segment_should_parse_static_segment() {
    // Act
    let segment = ParameterizedSegment::from_component("static").unwrap();

    // Assert
    assert!(matches!(segment, ParameterizedSegment::Static(value) if value == "static"));
}

#[test]
fn should_parse_uuid() {
    // Arrange
    let hyphenated_uuid_str = "aea4d73f-5762-408f-b5ae-d0899c8fe83a";
    let sample_uuid = uuid::Uuid::parse_str(hyphenated_uuid_str).expect("should parse valid UUID");

    // Act
    let segment = ParameterizedSegment::from_uuid(&sample_uuid);

    // Assert
    assert!(matches!(segment, ParameterizedSegment::Static(value) if value == hyphenated_uuid_str));
}

#[test]
fn web_segment_from_uuid_uses_hyphenated_text() {
    // Arrange
    let hyphenated_uuid_str = "9a878802-7b0f-4531-bcbb-9a88d4324a5f";
    let sample_uuid = uuid::Uuid::parse_str(hyphenated_uuid_str).expect("should parse valid UUID");

    // Act
    let segment = WebSegment::from_uuid(&sample_uuid);

    // Assert
    assert_eq!(segment.to_evaluated(), hyphenated_uuid_str.to_owned());
}

#[test]
fn should_trim_component_before_classification() {
    // Act
    let segment = ParameterizedSegment::from_component("  {id} ").unwrap();

    // Assert
    assert!(matches!(segment, ParameterizedSegment::NamedParam(param) if param == "id"));
}

#[test]
fn should_not_parse_whitespace_only_segment() {
    // Act
    let res = ParameterizedSegment::from_component("   ");

    // Assert
    assert!(res.is_err());
}

#[test]
fn web_segment_rejects_only_the_empty_component() {
    assert!(WebSegment::from_component("").is_err());
    let kept = WebSegment::from_component(" ").unwrap();
    assert_eq!(kept.to_evaluated(), " ");
}
