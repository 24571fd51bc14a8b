use openapi2curl::{build_json_example, placeholder_for_schema, scalar_to_string, Json};

fn s(text: &str) -> Json {
    Json::Str(text.to_string())
}

fn num(text: &str) -> Json {
    Json::Number(text.to_string())
}

/// An object as serde_json's map holds it: members ordered by key.
fn obj(members: Vec<(&str, Json)>) -> Json {
    let mut members: Vec<(String, Json)> =
        members.into_iter().map(|(k, v)| (k.to_string(), v)).collect();
    members.sort_by(|a, b| a.0.cmp(&b.0));
    Json::Object(members)
}

fn arr(items: Vec<Json>) -> Json {
    Json::Array(items)
}

#[test]
fn schema_example_wins_over_default_and_type() {
    let schema = obj(vec![("type", s("integer")), ("example", num("42")), ("default", num("1"))]);
    assert_eq!(placeholder_for_schema(&schema), "42");
}

#[test]
fn schema_default_wins_over_enum_and_type() {
    let schema = obj(vec![
        ("type", s("string")),
        ("default", s("pending")),
        ("enum", arr(vec![s("active"), s("inactive")])),
    ]);
    assert_eq!(placeholder_for_schema(&schema), "pending");
}

#[test]
fn enum_first_value_wins_over_bare_type_placeholder() {
    let schema = obj(vec![("type", s("string")), ("enum", arr(vec![s("active"), s("inactive")]))]);
    assert_eq!(placeholder_for_schema(&schema), "active");
}

#[test]
fn integer_type_falls_back_to_a_sensible_placeholder() {
    let schema = obj(vec![("type", s("integer"))]);
    assert_eq!(placeholder_for_schema(&schema), "1");
}

#[test]
fn boolean_type_falls_back_to_true() {
    let schema = obj(vec![("type", s("boolean"))]);
    assert_eq!(placeholder_for_schema(&schema), "true");
}

#[test]
fn string_format_email_gets_a_realistic_placeholder() {
    let schema = obj(vec![("type", s("string")), ("format", s("email"))]);
    assert_eq!(placeholder_for_schema(&schema), "user@example.com");
}

#[test]
fn string_format_uuid_gets_a_realistic_placeholder() {
    let schema = obj(vec![("type", s("string")), ("format", s("uuid"))]);
    assert_eq!(
        placeholder_for_schema(&schema),
        "00000000-0000-0000-0000-000000000000"
    );
}

#[test]
fn bare_string_type_with_no_hints_gets_a_generic_placeholder() {
    let schema = obj(vec![("type", s("string"))]);
    assert_eq!(placeholder_for_schema(&schema), "string");
}

#[test]
fn empty_schema_defaults_to_a_generic_string_placeholder() {
    assert_eq!(placeholder_for_schema(&obj(vec![])), "string");
}

#[test]
fn builds_a_full_object_example_from_properties() {
    let schema = obj(vec![
        ("type", s("object")),
        (
            "properties",
            obj(vec![
                ("name", obj(vec![("type", s("string"))])),
                ("age", obj(vec![("type", s("integer")), ("default", num("18"))])),
                ("verified", obj(vec![("type", s("boolean"))])),
            ]),
        ),
    ]);
    let example = build_json_example(&schema);
    assert_eq!(
        example,
        obj(vec![("name", s("string")), ("age", num("18")), ("verified", Json::Bool(true))])
    );
}

#[test]
fn builds_an_array_example_from_items() {
    let schema = obj(vec![("type", s("array")), ("items", obj(vec![("type", s("string"))]))]);
    assert_eq!(build_json_example(&schema), arr(vec![s("string")]));
}

#[test]
fn top_level_schema_example_is_used_verbatim_over_generated_fields() {
    let schema = obj(vec![
        ("type", s("object")),
        ("example", obj(vec![("name", s("Ada Lovelace"))])),
        ("properties", obj(vec![("name", obj(vec![("type", s("string"))]))])),
    ]);
    assert_eq!(
        build_json_example(&schema),
        obj(vec![("name", s("Ada Lovelace"))])
    );
}

#[test]
fn deeply_self_referential_schema_terminates_instead_of_recursing_forever() {
    fn nested(depth: usize) -> Json {
        if depth == 0 {
            obj(vec![("type", s("array")), ("items", Json::Null)])
        } else {
            obj(vec![("type", s("array")), ("items", nested(depth - 1))])
        }
    }
    let schema = nested(20);
    let _ = build_json_example(&schema);
}

#[test]
fn nested_arrays_stop_at_the_depth_limit() {
    fn nested(depth: usize) -> Json {
        if depth == 0 {
            obj(vec![("type", s("array")), ("items", Json::Null)])
        } else {
            obj(vec![("type", s("array")), ("items", nested(depth - 1))])
        }
    }
    // Eight levels of arrays are generated, the ninth is cut off as null.
    let mut expected = Json::Null;
    for _ in 0..8 {
        expected = arr(vec![expected]);
    }
    assert_eq!(build_json_example(&nested(20)), expected);
}

#[test]
fn object_without_type_but_with_properties_is_an_object() {
    let schema = obj(vec![("properties", obj(vec![("id", obj(vec![("type", s("integer"))]))]))]);
    assert_eq!(build_json_example(&schema), obj(vec![("id", num("1"))]));
}

#[test]
fn number_and_formats_in_request_bodies() {
    assert_eq!(build_json_example(&obj(vec![("type", s("number"))])), num("1.5"));
    assert_eq!(
        build_json_example(&obj(vec![("format", s("date-time"))])),
        s("2024-01-01T00:00:00Z")
    );
    assert_eq!(build_json_example(&obj(vec![("type", s("null"))])), Json::Null);
}

#[test]
fn placeholder_for_other_types_and_formats() {
    assert_eq!(placeholder_for_schema(&obj(vec![("type", s("number"))])), "1.5");
    assert_eq!(placeholder_for_schema(&obj(vec![("type", s("array"))])), "value");
    assert_eq!(placeholder_for_schema(&obj(vec![("type", s("object"))])), "value");
    assert_eq!(placeholder_for_schema(&obj(vec![("format", s("date"))])), "2024-01-01");
    assert_eq!(placeholder_for_schema(&obj(vec![("enum", arr(vec![]))])), "string");
}

#[test]
fn scalars_render_as_plain_text() {
    assert_eq!(scalar_to_string(&s("a b")), "a b");
    assert_eq!(scalar_to_string(&num("-3.25")), "-3.25");
    assert_eq!(scalar_to_string(&Json::Bool(false)), "false");
    assert_eq!(scalar_to_string(&Json::Null), "");
}

#[test]
fn arrays_and_objects_render_as_compact_json() {
    let v = obj(vec![("q", s("say \"hi\"")), ("list", arr(vec![num("1"), Json::Null, Json::Bool(true)]))]);
    assert_eq!(scalar_to_string(&v), r#"{"list":[1,null,true],"q":"say \"hi\""}"#);
    assert_eq!(scalar_to_string(&arr(vec![])), "[]");
    assert_eq!(scalar_to_string(&obj(vec![])), "{}");
}

#[test]
fn composed_property_schema_renders_as_null() {
    let schema = obj(vec![
        ("type", s("object")),
        (
            "properties",
            obj(vec![
                ("pet", obj(vec![("oneOf", arr(vec![obj(vec![("type", s("string"))])]))])),
                ("tag", obj(vec![("allOf", arr(vec![])), ("default", s("t"))])),
            ]),
        ),
    ]);
    assert_eq!(build_json_example(&schema), obj(vec![("pet", Json::Null), ("tag", s("t"))]));
}
