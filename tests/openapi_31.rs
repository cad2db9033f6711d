use agentgateway::json::Json;
use agentgateway::openapi::{parse_openapi_schema, resolve_body, resolve_param, spec_version};
use agentgateway::schema::normalize_schema;

fn from_value(v: &serde_json::Value) -> Json {
    match v {
        serde_json::Value::Null => Json::Null,
        serde_json::Value::Bool(b) => Json::Bool(*b),
        serde_json::Value::Number(n) => Json::Number(n.to_string()),
        serde_json::Value::String(s) => Json::Str(s.clone()),
        serde_json::Value::Array(xs) => Json::Array(xs.iter().map(from_value).collect()),
        serde_json::Value::Object(m) => {
            Json::Object(m.iter().map(|(k, x)| (k.clone(), from_value(x))).collect())
        },
    }
}

fn to_value(j: &Json) -> serde_json::Value {
    match j {
        Json::Null => serde_json::Value::Null,
        Json::Bool(b) => serde_json::Value::Bool(*b),
        Json::Number(n) => serde_json::from_str(n).unwrap(),
        Json::Str(s) => serde_json::Value::String(s.clone()),
        Json::Array(xs) => serde_json::Value::Array(xs.iter().map(to_value).collect()),
        Json::Object(fs) => {
            let mut m = serde_json::Map::new();
            for (k, x) in fs {
                m.insert(k.clone(), to_value(x));
            }
            serde_json::Value::Object(m)
        },
    }
}

fn jv(s: &str) -> serde_json::Value {
    serde_json::from_str(s).unwrap()
}

fn norm(v: &serde_json::Value) -> serde_json::Value {
    to_value(&normalize_schema(&from_value(v)))
}

/// The document that the parameter and body tests resolve against.
fn test_doc() -> Json {
    from_value(&jv(r##"{
        "openapi": "3.1.0",
        "info": {"title": "Test API", "version": "1.0.0"},
        "paths": {"/test": {"get": {"operationId": "testOperation",
            "responses": {"200": {"description": "Success"}}}}}
    }"##))
}

fn process_parameter(p: &serde_json::Value) -> Option<(String, serde_json::Value, bool)> {
    match resolve_param(&test_doc(), &from_value(p)) {
        Ok(param) => Some((param.name, to_value(&param.schema), param.required)),
        Err(_) => None,
    }
}

fn process_request_body(
    b: &serde_json::Value,
) -> Option<(serde_json::Map<String, serde_json::Value>, Vec<String>)> {
    let mut op = serde_json::Map::new();
    op.insert("requestBody".to_string(), b.clone());
    let op = from_value(&serde_json::Value::Object(op));
    match resolve_body(&test_doc(), &op) {
        Ok(Some((schema, _))) => {
            let schema = to_value(&schema);
            let properties = schema["properties"].as_object().cloned().unwrap_or_default();
            let required = schema["required"]
                .as_array()
                .map(|xs| xs.iter().filter_map(|x| x.as_str().map(|s| s.to_string())).collect())
                .unwrap_or_default();
            Some((properties, required))
        },
        _ => None,
    }
}

fn tools_of(doc: &str) -> Vec<(String, String, String, String)> {
    let doc = from_value(&jv(doc));
    match parse_openapi_schema(&doc) {
        Ok(tools) => tools
            .into_iter()
            .map(|(t, c)| (t.name, t.description, c.method, c.path))
            .collect(),
        Err(e) => panic!("parsing failed: {}", e.to_string()),
    }
}

#[test]
fn test_openapi_31_detection_and_parsing() {
    let content_31 = r##"{
        "openapi": "3.1.0",
        "info": {"title": "Test API", "version": "1.0.0"},
        "paths": {"/test": {"get": {"operationId": "testOperation", "summary": "Test operation",
            "responses": {"200": {"description": "Success"}}}}}
    }"##;
    let doc = from_value(&jv(content_31));
    assert_eq!(spec_version(&doc), "3.1");
    let tools = tools_of(content_31);
    assert_eq!(tools.len(), 1);
    assert_eq!(tools[0].0, "testOperation");
}

#[test]
fn test_openapi_30_still_works() {
    let content_30 = r##"{
        "openapi": "3.0.0",
        "info": {"title": "Test API", "version": "1.0.0"},
        "paths": {"/test": {"get": {"operationId": "testOperation", "summary": "Test operation",
            "responses": {"200": {"description": "Success"}}}}}
    }"##;
    let doc = from_value(&jv(content_30));
    assert_eq!(spec_version(&doc), "3.0.0");
    match parse_openapi_schema(&doc) {
        Ok(_) => {},
        Err(e) => {
            let error_msg = e.to_string();
            assert!(!error_msg.contains("OpenAPI 3.1 parsing is not yet fully implemented"));
        },
    }
}

#[test]
fn test_openapi_31_with_parameters() {
    let content_31 = r##"{
        "openapi": "3.1.0",
        "info": {"title": "Test API with Parameters", "version": "1.0.0"},
        "servers": [{"url": "https://api.example.com"}],
        "paths": {"/users/{userId}": {"get": {
            "operationId": "getUserById",
            "summary": "Get user by ID",
            "parameters": [
                {"name": "userId", "in": "path", "required": true, "description": "The user ID",
                 "schema": {"type": "integer", "format": "int64"}},
                {"name": "include", "in": "query", "required": false, "description": "Fields to include",
                 "schema": {"type": "string", "enum": ["profile", "settings", "all"]}},
                {"name": "X-API-Key", "in": "header", "required": true,
                 "description": "API key for authentication", "schema": {"type": "string"}}
            ],
            "responses": {"200": {"description": "User found"}, "404": {"description": "User not found"}}
        }}}
    }"##;
    let doc = from_value(&jv(content_31));
    assert_eq!(spec_version(&doc), "3.1");
    let tools = tools_of(content_31);
    assert_eq!(tools.len(), 1);
    assert_eq!(tools[0].0, "getUserById");
    assert_eq!(tools[0].2, "GET");
    assert_eq!(tools[0].3, "/users/{userId}");
}

#[test]
fn test_openapi_31_petstore_like_spec() {
    let petstore_31 = r##"{
        "openapi": "3.1.0",
        "info": {"title": "Swagger Petstore - OpenAPI 3.1", "version": "1.0.11"},
        "servers": [{"url": "https://petstore3.swagger.io/api/v3"}],
        "paths": {
            "/pet": {
                "post": {"operationId": "addPet", "summary": "Add a new pet to the store"},
                "put": {"operationId": "updatePet", "summary": "Update an existing pet"}
            },
            "/pet/{petId}": {
                "get": {"operationId": "getPetById", "summary": "Find pet by ID"},
                "delete": {"operationId": "deletePet", "summary": "Deletes a pet"}
            },
            "/pet/findByStatus": {
                "get": {"operationId": "findPetsByStatus", "summary": "Finds Pets by status"}
            }
        }
    }"##;
    let doc = from_value(&jv(petstore_31));
    assert_eq!(spec_version(&doc), "3.1");
    let tools = tools_of(petstore_31);
    assert_eq!(tools.len(), 5);
    let tool_names: Vec<&str> = tools.iter().map(|t| t.0.as_str()).collect();
    assert!(tool_names.contains(&"addPet"));
    assert!(tool_names.contains(&"updatePet"));
    assert!(tool_names.contains(&"getPetById"));
    assert!(tool_names.contains(&"deletePet"));
    assert!(tool_names.contains(&"findPetsByStatus"));
}

#[test]
fn test_openapi_31_with_request_body() {
    let content_31 = r##"{
        "openapi": "3.1.0",
        "info": {"title": "Test API with Request Body", "version": "1.0.0"},
        "servers": [{"url": "https://api.example.com"}],
        "paths": {"/users": {"post": {
            "operationId": "createUser",
            "summary": "Create a new user",
            "description": "Create a new user with the provided data",
            "requestBody": {
                "required": true,
                "description": "User data to create",
                "content": {"application/json": {"schema": {
                    "type": "object",
                    "required": ["name", "email"],
                    "properties": {
                        "name": {"type": "string", "description": "User's full name"},
                        "email": {"type": "string", "format": "email", "description": "User's email address"},
                        "age": {"type": "integer", "minimum": 0, "maximum": 150, "description": "User's age (optional)"}
                    }
                }}}
            },
            "responses": {"201": {"description": "User created successfully"}, "400": {"description": "Invalid user data"}}
        }}}
    }"##;
    let doc = from_value(&jv(content_31));
    assert_eq!(spec_version(&doc), "3.1");
    let tools = tools_of(content_31);
    assert_eq!(tools.len(), 1);
    assert_eq!(tools[0].0, "createUser");
    assert_eq!(tools[0].2, "POST");
    assert_eq!(tools[0].3, "/users");
}

#[test]
fn test_normalize_schema_v3_1_type_arrays() {
        // Test the most critical method: normalize_schema_v3_1 with type arrays
        
        
        
        // Test basic type array conversion: ["string", "null"] -> nullable: true
        let type_array_schema = jv(r##"{
            "type": ["string", "null"],
            "description": "A nullable string field"
        }"##);
        
        let result = norm(&type_array_schema);
        assert_eq!(result["type"], "string");
        assert_eq!(result["nullable"], true);
        assert_eq!(result["description"], "A nullable string field");
        
        // Test number type array
        let number_array_schema = jv(r##"{
            "type": ["number", "null"],
            "minimum": 0,
            "maximum": 100
        }"##);
        
        let result = norm(&number_array_schema);
        assert_eq!(result["type"], "number");
        assert_eq!(result["nullable"], true);
        assert_eq!(result["minimum"], 0);
        assert_eq!(result["maximum"], 100);
        
        // Test array type array
        let array_type_schema = jv(r##"{
            "type": ["array", "null"],
            "items": {
                "type": "string"
            },
            "minItems": 1,
            "maxItems": 10
        }"##);
        
        let result = norm(&array_type_schema);
        assert_eq!(result["type"], "array");
        assert_eq!(result["nullable"], true);
        assert_eq!(result["minItems"], 1);
        assert_eq!(result["maxItems"], 10);
        assert!(result["items"].is_object());
        
        // Test complex nested type array
        let nested_schema = jv(r##"{
            "type": "object",
            "properties": {
                "name": {
                    "type": ["string", "null"]
                },
                "age": {
                    "type": ["integer", "null"],
                    "minimum": 0
                }
            }
        }"##);
        
        let result = norm(&nested_schema);
        let properties = result["properties"].as_object().unwrap();
        
        // Check nested name property
        let name_prop = &properties["name"];
        assert_eq!(name_prop["type"], "string");
        assert_eq!(name_prop["nullable"], true);
        
        // Check nested age property
        let age_prop = &properties["age"];
        assert_eq!(age_prop["type"], "integer");
        assert_eq!(age_prop["nullable"], true);
        assert_eq!(age_prop["minimum"], 0);
        
        println!("✓ Type arrays processing test passed!");
    }

#[test]
fn test_normalize_schema_v3_1_validation_keywords() {
        // Test validation keyword preservation
        
        
        
        // Test string validation keywords
        let string_schema = jv(r##"{
            "type": "string",
            "pattern": "^[A-Za-z]+$",
            "minLength": 2,
            "maxLength": 50,
            "format": "email"
        }"##);
        
        let result = norm(&string_schema);
        assert_eq!(result["type"], "string");
        assert_eq!(result["pattern"], "^[A-Za-z]+$");
        assert_eq!(result["minLength"], 2);
        assert_eq!(result["maxLength"], 50);
        assert_eq!(result["format"], "email");
        
        // Test array validation keywords
        let array_schema = jv(r##"{
            "type": "array",
            "items": {
                "type": "string"
            },
            "minItems": 1,
            "maxItems": 10,
            "uniqueItems": true
        }"##);
        
        let result = norm(&array_schema);
        assert_eq!(result["type"], "array");
        assert_eq!(result["minItems"], 1);
        assert_eq!(result["maxItems"], 10);
        assert_eq!(result["uniqueItems"], true);
        
        // Test numeric validation keywords
        let number_schema = jv(r##"{
            "type": "number",
            "minimum": 0,
            "maximum": 100,
            "multipleOf": 5
        }"##);
        
        let result = norm(&number_schema);
        assert_eq!(result["type"], "number");
        assert_eq!(result["minimum"], 0);
        assert_eq!(result["maximum"], 100);
        assert_eq!(result["multipleOf"], 5);
        
        // Test enum preservation
        let enum_schema = jv(r##"{
            "type": "string",
            "enum": ["red", "green", "blue"]
        }"##);
        
        let result = norm(&enum_schema);
        assert_eq!(result["type"], "string");
        assert_eq!(result["enum"], jv(r##"["red", "green", "blue"]"##));
        
        println!("✓ Validation keywords preservation test passed!");
    }

#[test]
fn test_normalize_schema_composition_anyof() {
        // Test anyOf composition processing
        
        
        
        // Test simple anyOf composition
        let anyof_schema = jv(r##"{
            "anyOf": [
                {
                    "type": "string",
                    "minLength": 1
                },
                {
                    "type": "number",
                    "minimum": 0
                }
            ]
        }"##);
        
        let result = norm(&anyof_schema);
        assert!(result["anyOf"].is_array());
        
        let anyof_array = result["anyOf"].as_array().unwrap();
        assert_eq!(anyof_array.len(), 2);
        
        // Check first schema in anyOf
        assert_eq!(anyof_array[0]["type"], "string");
        assert_eq!(anyof_array[0]["minLength"], 1);
        
        // Check second schema in anyOf
        assert_eq!(anyof_array[1]["type"], "number");
        assert_eq!(anyof_array[1]["minimum"], jv(r##"0"##));
        
        // Test anyOf with type arrays
        let anyof_with_nullable = jv(r##"{
            "anyOf": [
                {
                    "type": ["string", "null"],
                    "pattern": "^[A-Z]+$"
                },
                {
                    "type": "number",
                    "multipleOf": 2
                }
            ]
        }"##);
        
        let result = norm(&anyof_with_nullable);
        let anyof_array = result["anyOf"].as_array().unwrap();
        
        // Check that type arrays are normalized within anyOf
        assert_eq!(anyof_array[0]["type"], "string");
        assert_eq!(anyof_array[0]["nullable"], true);
        assert_eq!(anyof_array[0]["pattern"], "^[A-Z]+$");
        
        println!("✓ anyOf composition test passed!");
    }

#[test]
fn test_normalize_schema_composition_oneof() {
        // Test oneOf composition processing
        
        
        
        // Test oneOf composition
        let oneof_schema = jv(r##"{
            "oneOf": [
                {
                    "type": "object",
                    "properties": {
                        "email": {
                            "type": "string",
                            "format": "email"
                        }
                    },
                    "required": ["email"]
                },
                {
                    "type": "object",
                    "properties": {
                        "phone": {
                            "type": "string",
                            "pattern": "^\\+?[1-9]\\d{1,14}$"
                        }
                    },
                    "required": ["phone"]
                }
            ]
        }"##);
        
        let result = norm(&oneof_schema);
        assert!(result["oneOf"].is_array());
        
        let oneof_array = result["oneOf"].as_array().unwrap();
        assert_eq!(oneof_array.len(), 2);
        
        // Check first schema in oneOf
        let first_schema = &oneof_array[0];
        assert_eq!(first_schema["type"], "object");
        let props = first_schema["properties"].as_object().unwrap();
        assert_eq!(props["email"]["type"], "string");
        assert_eq!(props["email"]["format"], "email");
        
        // Check second schema in oneOf
        let second_schema = &oneof_array[1];
        assert_eq!(second_schema["type"], "object");
        let props = second_schema["properties"].as_object().unwrap();
        assert_eq!(props["phone"]["type"], "string");
        assert_eq!(props["phone"]["pattern"], "^\\+?[1-9]\\d{1,14}$");
        
        println!("✓ oneOf composition test passed!");
    }

#[test]
fn test_normalize_schema_composition_allof() {
        // Test allOf composition processing
        
        
        
        // Test allOf composition
        let allof_schema = jv(r##"{
            "allOf": [
                {
                    "type": "object",
                    "properties": {
                        "name": {
                            "type": "string",
                            "minLength": 1
                        }
                    },
                    "required": ["name"]
                },
                {
                    "type": "object",
                    "properties": {
                        "timestamp": {
                            "type": "string",
                            "format": "date-time"
                        }
                    }
                }
            ]
        }"##);
        
        let result = norm(&allof_schema);
        assert!(result["allOf"].is_array());
        
        let allof_array = result["allOf"].as_array().unwrap();
        assert_eq!(allof_array.len(), 2);
        
        // Check first schema in allOf
        let first_schema = &allof_array[0];
        assert_eq!(first_schema["type"], "object");
        let props = first_schema["properties"].as_object().unwrap();
        assert_eq!(props["name"]["type"], "string");
        assert_eq!(props["name"]["minLength"], 1);
        
        // Check second schema in allOf
        let second_schema = &allof_array[1];
        assert_eq!(second_schema["type"], "object");
        let props = second_schema["properties"].as_object().unwrap();
        assert_eq!(props["timestamp"]["type"], "string");
        assert_eq!(props["timestamp"]["format"], "date-time");
        
        println!("✓ allOf composition test passed!");
    }

#[test]
fn test_advanced_schema_integration() {
        // Test integration of all advanced features together
        
        
        
        // Complex schema combining type arrays, composition, and validation keywords
        let complex_schema = jv(r##"{
            "oneOf": [
                {
                    "type": "object",
                    "properties": {
                        "stringField": {
                            "type": ["string", "null"],
                            "pattern": "^[A-Za-z0-9]+$",
                            "minLength": 3,
                            "maxLength": 50
                        },
                        "numberField": {
                            "type": "number",
                            "minimum": 0,
                            "maximum": 1000,
                            "multipleOf": 5
                        }
                    },
                    "required": ["stringField"]
                },
                {
                    "type": "object",
                    "properties": {
                        "arrayField": {
                            "type": ["array", "null"],
                            "items": {
                                "anyOf": [
                                    {
                                        "type": ["string", "null"],
                                        "enum": ["option1", "option2", "option3"]
                                    },
                                    {
                                        "type": "number",
                                        "minimum": 1
                                    }
                                ]
                            },
                            "minItems": 1,
                            "maxItems": 10,
                            "uniqueItems": true
                        }
                    },
                    "required": ["arrayField"]
                }
            ]
        }"##);
        
        let result = norm(&complex_schema);
        
        // Verify oneOf structure is preserved
        assert!(result["oneOf"].is_array());
        let oneof_array = result["oneOf"].as_array().unwrap();
        assert_eq!(oneof_array.len(), 2);
        
        // Check first oneOf option
        let first_option = &oneof_array[0];
        assert_eq!(first_option["type"], "object");
        
        if let Some(props) = first_option["properties"].as_object() {
            // Check stringField with type array and validation keywords
            if let Some(string_field) = props.get("stringField") {
                assert_eq!(string_field["type"], "string");
                assert_eq!(string_field["nullable"], true);
                assert_eq!(string_field["pattern"], "^[A-Za-z0-9]+$");
                assert_eq!(string_field["minLength"], 3);
                assert_eq!(string_field["maxLength"], 50);
            }
            
            // Check numberField with validation keywords
            if let Some(number_field) = props.get("numberField") {
                assert_eq!(number_field["type"], "number");
                assert_eq!(number_field["minimum"], 0);
                assert_eq!(number_field["maximum"], 1000);
                assert_eq!(number_field["multipleOf"], 5);
            }
        }
        
        // Check second oneOf option
        let second_option = &oneof_array[1];
        if let Some(props) = second_option["properties"].as_object() {
            // Check arrayField with type array and nested composition
            if let Some(array_field) = props.get("arrayField") {
                assert_eq!(array_field["type"], "array");
                assert_eq!(array_field["nullable"], true);
                assert_eq!(array_field["minItems"], 1);
                assert_eq!(array_field["maxItems"], 10);
                assert_eq!(array_field["uniqueItems"], true);
                
                // Check nested anyOf in items
                if let Some(items) = array_field.get("items") {
                    assert!(items["anyOf"].is_array());
                    let items_anyof = items["anyOf"].as_array().unwrap();
                    
                    // Check first anyOf option (string with type array and enum)
                    assert_eq!(items_anyof[0]["type"], "string");
                    assert_eq!(items_anyof[0]["nullable"], true);
                    assert_eq!(items_anyof[0]["enum"], jv(r##"["option1", "option2", "option3"]"##));
                    
                    // Check second anyOf option (number with validation)
                    assert_eq!(items_anyof[1]["type"], "number");
                    assert_eq!(items_anyof[1]["minimum"], 1);
                }
            }
        }
        
        println!("✓ Advanced schema integration test passed!");
    }

#[test]
fn test_normalize_schema_v3_1_edge_cases() {
        // Test edge cases and error scenarios
        
        
        
        // Test empty type array (should handle gracefully)
        let empty_type_array = jv(r##"{
            "type": [],
            "description": "Empty type array"
        }"##);
        
        let normalized = norm(&empty_type_array);
        assert_eq!(normalized["type"], jv("[]"));
        assert_eq!(normalized["description"], "Empty type array");
        
        // Test single null type
        let null_only = jv(r##"{
            "type": ["null"],
            "description": "Null only type"
        }"##);
        
        let result = norm(&null_only);
        assert_eq!(result["type"], "null");
        assert_eq!(result["description"], "Null only type");
        
        // Test multiple non-null types (should take first)
        let multiple_types = jv(r##"{
            "type": ["string", "number", "boolean"],
            "description": "Multiple types"
        }"##);
        
        let result = norm(&multiple_types);
        assert_eq!(result["type"], "string");
        assert_eq!(result["description"], "Multiple types");
        
        // Test schema without type field
        let no_type = jv(r##"{
            "description": "No type field",
            "pattern": "^test$"
        }"##);
        
        let result = norm(&no_type);
        assert_eq!(result["description"], "No type field");
        assert_eq!(result["pattern"], "^test$");
        
        // Test empty composition arrays
        let empty_anyof = jv(r##"{
            "anyOf": [],
            "description": "Empty anyOf"
        }"##);
        
        let result = norm(&empty_anyof);
        assert!(result["anyOf"].is_array());
        assert_eq!(result["anyOf"].as_array().unwrap().len(), 0);
        
        println!("✓ Edge cases test passed!");
    }

#[test]
fn test_process_parameter_v3_1_complex_types() {
        // Test complex parameter processing with advanced 3.1 features
        
        
        
        // Test parameter with type arrays
        let param_with_type_array = jv(r##"{
            "name": "status",
            "in": "query",
            "required": false,
            "description": "Filter by status",
            "schema": {
                "type": ["string", "null"],
                "enum": ["active", "inactive", "pending"]
            }
        }"##);
        
        // Convert to parameter struct for processing
        let result = process_parameter(&param_with_type_array);
        assert!(result.is_some());
        
        let (name, schema, required) = result.unwrap();
        assert_eq!(name, "status");
        assert_eq!(required, false);
        assert_eq!(schema["type"], "string");
        assert_eq!(schema["nullable"], true);
        assert_eq!(schema["enum"], jv(r##"["active", "inactive", "pending"]"##));
        
        // Test parameter with composition schema
        let param_with_composition = jv(r##"{
            "name": "filter",
            "in": "query",
            "required": true,
            "description": "Complex filter parameter",
            "schema": {
                "anyOf": [
                    {
                        "type": "string",
                        "pattern": "^[A-Z]+$"
                    },
                    {
                        "type": "number",
                        "minimum": 0,
                        "maximum": 100
                    }
                ]
            }
        }"##);
        
        let result = process_parameter(&param_with_composition);
        assert!(result.is_some());
        
        let (name, schema, required) = result.unwrap();
        assert_eq!(name, "filter");
        assert_eq!(required, true);
        assert!(schema["anyOf"].is_array());
        
        let anyof_array = schema["anyOf"].as_array().unwrap();
        assert_eq!(anyof_array.len(), 2);
        assert_eq!(anyof_array[0]["type"], "string");
        assert_eq!(anyof_array[0]["pattern"], "^[A-Z]+$");
        assert_eq!(anyof_array[1]["type"], "number");
        assert_eq!(anyof_array[1]["minimum"], jv(r##"0"##));
        
        println!("✓ Complex parameter processing test passed!");
    }

#[test]
fn test_process_request_body_v3_1_nested_schemas() {
        // Test complex request body processing with nested schemas
        
        
        
        // Test request body with nested type arrays
        let request_body_with_nested = jv(r##"{
            "required": true,
            "description": "Complex nested request body",
            "content": {
                "application/json": {
                    "schema": {
                        "type": "object",
                        "properties": {
                            "user": {
                                "type": "object",
                                "properties": {
                                    "name": {
                                        "type": ["string", "null"],
                                        "minLength": 1
                                    },
                                    "email": {
                                        "type": "string",
                                        "format": "email"
                                    },
                                    "preferences": {
                                        "anyOf": [
                                            {
                                                "type": "object",
                                                "properties": {
                                                    "theme": {
                                                        "type": "string",
                                                        "enum": ["light", "dark"]
                                                    }
                                                }
                                            },
                                            {
                                                "type": ["array", "null"],
                                                "items": {
                                                    "type": "string"
                                                }
                                            }
                                        ]
                                    }
                                },
                                "required": ["email"]
                            },
                            "metadata": {
                                "type": ["object", "null"],
                                "additionalProperties": true
                            }
                        },
                        "required": ["user"]
                    }
                }
            }
        }"##);
        
        let result = process_request_body(&request_body_with_nested);
        assert!(result.is_some());
        
        let (properties, required) = result.unwrap();
        
        // Check that we have the user property
        assert!(properties.contains_key("user"));
        assert!(required.contains(&"user".to_string()));
        
        // Check nested structure processing
        let user_prop = &properties["user"];
        assert_eq!(user_prop["type"], "object");
        
        if let Some(user_props) = user_prop["properties"].as_object() {
            // Check that nested type arrays are processed
            if let Some(name_prop) = user_props.get("name") {
                assert_eq!(name_prop["type"], "string");
                assert_eq!(name_prop["nullable"], true);
                assert_eq!(name_prop["minLength"], 1);
            }
            
            // Check that composition schemas are processed
            if let Some(prefs_prop) = user_props.get("preferences") {
                assert!(prefs_prop["anyOf"].is_array());
            }
        }
        
        // Check metadata with type arrays
        if let Some(metadata_prop) = properties.get("metadata") {
            assert_eq!(metadata_prop["type"], "object");
            assert_eq!(metadata_prop["nullable"], true);
        }
        
        println!("✓ Nested request body processing test passed!");
    }
