use agentgateway::schema::{normalize_single_type, normalize_type_array, ParameterLocation};

#[test]
fn test_normalize_type_array_single_type() {
    let types = vec!["string".to_string()];
    let (schema_type, nullable) = normalize_type_array(&types);
    assert_eq!(schema_type, Some("string".to_string()));
    assert_eq!(nullable, false);
}

#[test]
fn test_normalize_type_array_nullable() {
    let types = vec!["string".to_string(), "null".to_string()];
    let (schema_type, nullable) = normalize_type_array(&types);
    assert_eq!(schema_type, Some("string".to_string()));
    assert_eq!(nullable, true);
}

#[test]
fn test_normalize_type_array_only_null() {
    let types = vec!["null".to_string()];
    let (schema_type, nullable) = normalize_type_array(&types);
    assert_eq!(schema_type, None);
    assert_eq!(nullable, true);
}

#[test]
fn test_normalize_type_array_multiple_types() {
    let types = vec!["string".to_string(), "number".to_string(), "null".to_string()];
    let (schema_type, nullable) = normalize_type_array(&types);
    assert_eq!(schema_type, Some("string".to_string()));
    assert_eq!(nullable, true);
}

#[test]
fn test_normalize_type_array_empty() {
    let types: Vec<String> = vec![];
    let (schema_type, nullable) = normalize_type_array(&types);
    assert_eq!(schema_type, None);
    assert_eq!(nullable, false);
}

#[test]
fn test_normalize_single_type_regular() {
    let (schema_type, nullable) = normalize_single_type("string", false);
    assert_eq!(schema_type, Some("string".to_string()));
    assert_eq!(nullable, false);
}

#[test]
fn test_normalize_single_type_nullable() {
    let (schema_type, nullable) = normalize_single_type("string", true);
    assert_eq!(schema_type, Some("string".to_string()));
    assert_eq!(nullable, true);
}

#[test]
fn test_normalize_single_type_null() {
    let (schema_type, nullable) = normalize_single_type("null", false);
    assert_eq!(schema_type, None);
    assert_eq!(nullable, true);
}

#[test]
fn compatibility_test_parameter_location_display() {
    assert_eq!(ParameterLocation::Query.to_string(), "query");
    assert_eq!(ParameterLocation::Path.to_string(), "path");
    assert_eq!(ParameterLocation::Header.to_string(), "header");
    assert_eq!(ParameterLocation::Cookie.to_string(), "cookie");
}

#[test]
fn adapters_test_parameter_location_display() {
    assert_eq!(ParameterLocation::Query.to_string(), "query");
    assert_eq!(ParameterLocation::Path.to_string(), "path");
    assert_eq!(ParameterLocation::Header.to_string(), "header");
    assert_eq!(ParameterLocation::Cookie.to_string(), "cookie");
}

#[test]
fn type_array_with_only_nulls_and_duplicates() {
    let types = vec!["null".to_string(), "null".to_string(), "integer".to_string()];
    let (schema_type, nullable) = normalize_type_array(&types);
    assert_eq!(schema_type, Some("integer".to_string()));
    assert!(nullable);
}
