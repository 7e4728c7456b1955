//! Populating route templates from value mappings.

use web_route::error::WebRouteError;
use web_route::values::{resolve_values, LeafValue};
use web_route::ParameterizedRoute;

fn object_of(entries: Vec<(&str, serde_json::Value)>) -> serde_json::Value {
    let mut map = serde_json::Map::new();
    for (key, value) in entries {
        map.insert(key.to_string(), value);
    }
    serde_json::Value::Object(map)
}

#[test]
fn should_normalize_double_forward_slashes() {
    // Arrange
    let parameterized_route = ParameterizedRoute::new("/some/route/{param}");

    // Act
    let web_route = parameterized_route
        .to_web_route(&object_of(vec![(
            "param",
            serde_json::Value::String("/value".to_owned()),
        )]))
        .unwrap();

    // Assert
    assert_eq!(web_route.as_str(), "/some/route/value");
}

#[test]
fn populates_named_parameter() {
    let route = ParameterizedRoute::new("/foo/{foo_id}");
    let web = route
        .to_web_route(&object_of(vec![(
            "foo_id",
            serde_json::Value::String("42".to_owned()),
        )]))
        .unwrap();
    assert_eq!(web.as_str(), "/foo/42");
}

#[test]
fn populates_catchall_with_slash_injection() {
    let route = ParameterizedRoute::new("/foo/{*path}");
    let web = route
        .to_web_route(&object_of(vec![(
            "path",
            serde_json::Value::String("a/b".to_owned()),
        )]))
        .unwrap();
    assert_eq!(web.as_str(), "/foo/a/b");
}

#[test]
fn missing_parameter_fails_with_unpopulated_param() {
    let route = ParameterizedRoute::new("/foo/{id}");
    let outcome = route.to_web_route(&object_of(vec![]));
    assert!(matches!(outcome, Err(WebRouteError::UnpopulatedParam(name)) if name == "id"));
}

#[test]
fn non_object_input_fails_with_invalid_value() {
    let route = ParameterizedRoute::new("/foo/{id}");
    let outcome = route.to_web_route(&serde_json::Value::Number(serde_json::Number::from(42u64)));
    assert!(matches!(outcome, Err(WebRouteError::InvalidValue)));
}

#[test]
fn array_input_fails_with_invalid_value() {
    let route = ParameterizedRoute::new("/foo/{id}");
    let outcome = route.to_web_route(&serde_json::Value::Array(vec![]));
    assert!(matches!(outcome, Err(WebRouteError::InvalidValue)));
}

#[test]
fn null_input_fails_with_invalid_value() {
    let route = ParameterizedRoute::new("/foo/{id}");
    let outcome = route.to_web_route(&serde_json::Value::Null);
    assert!(matches!(outcome, Err(WebRouteError::InvalidValue)));
}

#[test]
fn number_and_bool_values_take_canonical_string_form() {
    let route = ParameterizedRoute::new("/n/{n}/b/{b}");
    let web = route
        .to_web_route(&object_of(vec![
            ("n", serde_json::Value::Number(serde_json::Number::from(42u64))),
            ("b", serde_json::Value::Bool(true)),
        ]))
        .unwrap();
    assert_eq!(web.as_str(), "/n/42/b/true");
}

#[test]
fn null_valued_entry_is_dropped_so_its_parameter_fails() {
    let route = ParameterizedRoute::new("/foo/{id}");
    let outcome = route.to_web_route(&object_of(vec![("id", serde_json::Value::Null)]));
    assert!(matches!(outcome, Err(WebRouteError::UnpopulatedParam(name)) if name == "id"));
}

#[test]
fn nested_object_entry_is_dropped_so_its_parameter_fails() {
    let route = ParameterizedRoute::new("/foo/{id}");
    let nested = object_of(vec![("inner", serde_json::Value::Bool(false))]);
    let outcome = route.to_web_route(&object_of(vec![("id", nested)]));
    assert!(matches!(outcome, Err(WebRouteError::UnpopulatedParam(name)) if name == "id"));
}

#[test]
fn first_unpopulated_parameter_wins() {
    let route = ParameterizedRoute::new("/{first}/{second}");
    let outcome = route.to_web_route(&object_of(vec![]));
    assert!(matches!(outcome, Err(WebRouteError::UnpopulatedParam(name)) if name == "first"));
}

#[test]
fn catchall_populates_like_a_named_parameter() {
    let route = ParameterizedRoute::new("/files/{*path}");
    let pairs = vec![("path".to_string(), "readme".to_string())];
    let web = route.to_populated_route(&pairs).unwrap();
    assert_eq!(web.as_str(), "/files/readme");
}

#[test]
fn populated_route_uses_first_value_for_duplicate_keys() {
    let route = ParameterizedRoute::new("/d/{id}");
    let pairs = vec![
        ("id".to_string(), "one".to_string()),
        ("id".to_string(), "two".to_string()),
    ];
    let web = route.to_populated_route(&pairs).unwrap();
    assert_eq!(web.as_str(), "/d/one");
}

#[test]
fn resolve_values_keeps_leaves_and_drops_the_rest() {
    let entries = vec![
        ("text".to_string(), LeafValue::Text("hello".to_string())),
        ("number".to_string(), LeafValue::Number("3".to_string())),
        ("yes".to_string(), LeafValue::Bool(true)),
        ("no".to_string(), LeafValue::Bool(false)),
        ("gone".to_string(), LeafValue::Other),
    ];
    let pairs = resolve_values(&entries);
    assert_eq!(
        pairs,
        vec![
            ("text".to_string(), "hello".to_string()),
            ("number".to_string(), "3".to_string()),
            ("yes".to_string(), "true".to_string()),
            ("no".to_string(), "false".to_string()),
        ]
    );
}

#[test]
fn error_messages_name_the_failure() {
    assert_eq!(
        WebRouteError::InvalidValue.message(),
        "values need to be able to serialize into a `serde_json::Value::Object`"
    );
    assert_eq!(
        WebRouteError::UnpopulatedParam("id".to_string()).message(),
        "no value to populate parameter: id"
    );
}

#[test]
fn joined_fixed_braces_stay_static_through_population() {
    let template = ParameterizedRoute::new("/api/{id}");
    let fixed = web_route::WebRoute::new("/{not_a_param}");
    let joined = template.join(&fixed);
    let pairs = vec![("id".to_string(), "7".to_string())];
    let web = joined.to_populated_route(&pairs).unwrap();
    assert_eq!(web.as_str(), "/api/7/{not_a_param}");
}

#[test]
fn reparsed_template_text_classifies_again() {
    let template = ParameterizedRoute::new("/api/{id}");
    let fixed = web_route::WebRoute::new("/{not_a_param}");
    let joined = ParameterizedRoute::new(template.join(&fixed).as_str());
    let outcome = joined.to_populated_route(&vec![("id".to_string(), "7".to_string())]);
    assert!(matches!(outcome, Err(WebRouteError::UnpopulatedParam(name)) if name == "not_a_param"));
}
