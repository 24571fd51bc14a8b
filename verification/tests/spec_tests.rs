use openapi2curl::{parse_spec, parse_spec_document, Json, ParamLocation, SpecError};

const SAMPLE: &str = r#"{
    "openapi": "3.0.3",
    "servers": [{"url": "https://api.example.com/v1"}],
    "paths": {
        "/users": {
            "get": {
                "parameters": [
                    {"name": "limit", "in": "query", "schema": {"type": "integer", "default": 20}}
                ]
            },
            "post": {
                "requestBody": {
                    "content": {
                        "application/json": {
                            "schema": {
                                "type": "object",
                                "properties": {"name": {"type": "string"}}
                            }
                        }
                    }
                }
            }
        },
        "/users/{id}": {
            "get": {
                "parameters": [
                    {"name": "id", "in": "path", "required": true, "schema": {"type": "integer"}},
                    {"name": "include", "in": "query", "example": "profile"}
                ]
            }
        }
    }
}"#;

#[test]
fn extracts_base_url_from_servers() {
    let parsed = parse_spec(SAMPLE).unwrap();
    assert_eq!(parsed.base_url.as_deref(), Some("https://api.example.com/v1"));
}

#[test]
fn extracts_one_operation_per_path_and_method() {
    let parsed = parse_spec(SAMPLE).unwrap();
    assert_eq!(parsed.operations.len(), 3);
    assert!(parsed.operations.iter().any(|o| o.path == "/users" && o.method == "GET"));
    assert!(parsed.operations.iter().any(|o| o.path == "/users" && o.method == "POST"));
    assert!(parsed.operations.iter().any(|o| o.path == "/users/{id}" && o.method == "GET"));
}

#[test]
fn path_parameter_with_no_example_gets_a_type_based_placeholder() {
    let parsed = parse_spec(SAMPLE).unwrap();
    let op = parsed.operations.iter().find(|o| o.path == "/users/{id}").unwrap();
    let id = op.parameters.iter().find(|p| p.name == "id").unwrap();
    assert_eq!(id.location, ParamLocation::Path);
    assert!(id.required);
    assert_eq!(id.value, "1");
}

#[test]
fn parameter_top_level_example_is_used_verbatim() {
    let parsed = parse_spec(SAMPLE).unwrap();
    let op = parsed.operations.iter().find(|o| o.path == "/users/{id}").unwrap();
    let include_param = op.parameters.iter().find(|p| p.name == "include").unwrap();
    assert_eq!(include_param.value, "profile");
}

#[test]
fn query_parameter_schema_default_is_used_when_no_example() {
    let parsed = parse_spec(SAMPLE).unwrap();
    let op = parsed.operations.iter().find(|o| o.path == "/users" && o.method == "GET").unwrap();
    let limit = op.parameters.iter().find(|p| p.name == "limit").unwrap();
    assert_eq!(limit.value, "20");
}

#[test]
fn request_body_is_built_from_schema_properties_when_no_example() {
    let parsed = parse_spec(SAMPLE).unwrap();
    let op = parsed.operations.iter().find(|o| o.path == "/users" && o.method == "POST").unwrap();
    let body = op.request_body.as_ref().unwrap();
    assert_eq!(body.content_type, "application/json");
    assert_eq!(
        body.json_body.as_ref().unwrap(),
        &Json::Object(vec![("name".to_string(), Json::Str("string".to_string()))])
    );
}

#[test]
fn operation_with_no_request_body_key_is_none() {
    let parsed = parse_spec(SAMPLE).unwrap();
    let op = parsed.operations.iter().find(|o| o.path == "/users" && o.method == "GET").unwrap();
    assert!(op.request_body.is_none());
}

#[test]
fn yaml_input_parses_identically_to_the_equivalent_json() {
    let yaml = r#"
openapi: "3.0.3"
paths:
  /ping:
    get: {}
"#;
    let parsed = parse_spec(yaml).unwrap();
    assert_eq!(parsed.operations.len(), 1);
    assert_eq!(parsed.operations[0].path, "/ping");
    assert_eq!(parsed.operations[0].method, "GET");
}

#[test]
fn non_method_keys_at_the_path_item_level_are_ignored() {
    let spec = r#"{"paths": {"/x": {"parameters": [], "get": {}}}}"#;
    let parsed = parse_spec(spec).unwrap();
    assert_eq!(parsed.operations.len(), 1);
}

#[test]
fn missing_paths_object_is_a_clean_error() {
    assert!(parse_spec(r#"{"openapi": "3.0.0"}"#).is_err());
}

#[test]
fn garbage_input_is_a_clean_error_not_a_panic() {
    assert!(parse_spec("{{{not json or yaml:::").is_err());
}

#[test]
fn each_error_has_its_variant() {
    assert!(matches!(
        parse_spec("{{{not json or yaml:::").unwrap_err(),
        SpecError::InvalidDocument(_)
    ));
    assert_eq!(parse_spec(r#"{"paths": []}"#).unwrap_err(), SpecError::MissingPaths);
    assert_eq!(parse_spec_document(&Json::Null).unwrap_err(), SpecError::MissingPaths);
}

#[test]
fn an_unreadable_document_keeps_the_yaml_readers_message_as_its_cause() {
    let text = "{{{not json or yaml:::";
    let err = parse_spec(text).unwrap_err();
    let expected = serde_yaml::from_str::<serde_json::Value>(text).unwrap_err().to_string();
    assert!(!expected.is_empty());
    assert_eq!(err, SpecError::InvalidDocument(expected.clone()));
    assert_eq!(err.message(), "not valid JSON or YAML");
    assert_eq!(err.cause(), Some(expected));
}

#[test]
fn a_missing_paths_object_has_no_cause() {
    let err = parse_spec(r#"{"openapi": "3.0.0"}"#).unwrap_err();
    assert_eq!(err.message(), "no top-level 'paths' object — not an OpenAPI spec?");
    assert_eq!(err.cause(), None);
}

#[test]
fn parsed_objects_hold_their_keys_sorted() {
    let spec = r#"{"paths":{"/z":{"get":{}},"/a":{"post":{"requestBody":{"content":{"application/json":{"example":{"zeta":1,"Beta":[true],"alpha":{"y":null,"x":"s"}}}}}}}}}"#;
    let parsed = parse_spec(spec).unwrap();
    assert_eq!(parsed.operations[0].path, "/a");
    assert_eq!(parsed.operations[1].path, "/z");
    let body = parsed.operations[0].request_body.as_ref().unwrap().json_body.as_ref().unwrap();
    assert_eq!(body.to_compact_string(), r#"{"Beta":[true],"alpha":{"x":"s","y":null},"zeta":1}"#);
}

#[test]
fn yaml_and_json_of_the_same_document_read_alike() {
    let json = r#"{"servers":[{"url":"http://s"}],"paths":{"/b":{"put":{}},"/a":{"get":{"parameters":[{"name":"q","in":"query","schema":{"enum":["x","y"]}}]}}}}"#;
    let yaml = "servers:\n  - url: http://s\npaths:\n  /b:\n    put: {}\n  /a:\n    get:\n      parameters:\n        - name: q\n          in: query\n          schema:\n            enum: [x, y]\n";
    let a = parse_spec(json).unwrap();
    let b = parse_spec(yaml).unwrap();
    assert_eq!(a.base_url, b.base_url);
    assert_eq!(a.operations, b.operations);
    // Paths come in the order serde_json's map keeps them.
    assert_eq!(a.operations[0].path, "/a");
    assert_eq!(a.operations[0].parameters[0].value, "x");
}

#[test]
fn methods_come_in_fixed_order_and_bad_parameters_are_skipped() {
    let spec = r#"{"paths": {"/r": {
        "trace": {}, "delete": {}, "get": {}, "summary": "ignored",
        "patch": {"parameters": [
            {"name": "a", "in": "body"},
            {"in": "query"},
            {"name": "t", "in": "header", "required": "yes"},
            {"name": "c", "in": "cookie", "required": true}
        ]}
    }, "/s": "not an object"}}"#;
    let parsed = parse_spec(spec).unwrap();
    let methods: Vec<&str> = parsed.operations.iter().map(|o| o.method.as_str()).collect();
    assert_eq!(methods, vec!["GET", "PATCH", "DELETE", "TRACE"]);
    let patch = &parsed.operations[1];
    assert_eq!(patch.parameters.len(), 2);
    assert_eq!(patch.parameters[0].name, "t");
    assert_eq!(patch.parameters[0].location, ParamLocation::Header);
    assert!(!patch.parameters[0].required);
    assert_eq!(patch.parameters[0].value, "string");
    assert_eq!(patch.parameters[1].location, ParamLocation::Cookie);
    assert!(patch.parameters[1].required);
    assert!(parsed.base_url.is_none());
}

#[test]
fn request_body_examples_and_other_content_types() {
    let spec = r#"{"paths": {
        "/a": {"post": {"requestBody": {"content": {"application/json": {"example": {"k": 1}, "schema": {"type": "string"}}}}}},
        "/b": {"post": {"requestBody": {"content": {"application/json": {"examples": {"first": {"value": [true]}, "second": {"value": 2}}}}}}},
        "/c": {"post": {"requestBody": {"content": {"text/plain": {}, "application/xml": {}}}}},
        "/d": {"post": {"requestBody": {"content": {"application/json": {}}}}},
        "/e": {"post": {"requestBody": {"content": {}}}}
    }}"#;
    let parsed = parse_spec(spec).unwrap();
    let body = |i: usize| parsed.operations[i].request_body.as_ref();
    assert_eq!(
        body(0).unwrap().json_body,
        Some(Json::Object(vec![("k".to_string(), Json::Number("1".to_string()))]))
    );
    assert_eq!(body(1).unwrap().json_body, Some(Json::Array(vec![Json::Bool(true)])));
    assert_eq!(body(2).unwrap().content_type, "application/xml");
    assert_eq!(body(2).unwrap().json_body, None);
    assert_eq!(body(3).unwrap().json_body, Some(Json::Null));
    assert!(body(4).is_none());
}
