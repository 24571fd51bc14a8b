use vstd::prelude::*;

use crate::json::{
    all_true, compact_text, items_wf, members_wf, sorted_keys, text_less, Json, JsonModel,
};
use crate::text::str_equals;

verus! {

/// The greatest depth at which [`build_json_example`] still descends into
/// `properties` or `items`.
pub const MAX_DEPTH: usize = 8;

/// A JSON value as plain text for a URL or a header: a string as it is,
/// a number as its digits, a boolean as `true`/`false`, `null` as nothing,
/// an array or object as its compact JSON text.
pub open spec fn scalar_text(v: JsonModel) -> Seq<char> {
    match v {
        JsonModel::Str(s) => s,
        JsonModel::Number(n) => n,
        JsonModel::Bool(b) => if b {
            "true"@
        } else {
            "false"@
        },
        JsonModel::Null => Seq::empty(),
        _ => compact_text(v),
    }
}

/// The schema's `type`, where it is a string.
pub open spec fn schema_type(schema: JsonModel) -> Option<Seq<char>> {
    schema.str_member("type"@)
}

/// The schema's `format`, where it is a string.
pub open spec fn schema_format(schema: JsonModel) -> Option<Seq<char>> {
    schema.str_member("format"@)
}

/// The first value of the schema's `enum`, where that is a non-empty array.
pub open spec fn first_enum_value(schema: JsonModel) -> Option<JsonModel> {
    match schema.get("enum"@) {
        Some(JsonModel::Array(items)) => if items.len() > 0 {
            Some(items[0])
        } else {
            None
        },
        _ => None,
    }
}

/// The placeholder for a string of the given `format`.
pub open spec fn format_placeholder(format: Option<Seq<char>>) -> Seq<char> {
    if format == Some("uuid"@) {
        "00000000-0000-0000-0000-000000000000"@
    } else if format == Some("date"@) {
        "2024-01-01"@
    } else if format == Some("date-time"@) {
        "2024-01-01T00:00:00Z"@
    } else if format == Some("email"@) {
        "user@example.com"@
    } else {
        "string"@
    }
}

/// The placeholder that the schema's `type` (and, for a string, `format`) gives.
pub open spec fn type_placeholder(schema: JsonModel) -> Seq<char> {
    match schema_type(schema) {
        None => format_placeholder(schema_format(schema)),
        Some(t) => if t == "integer"@ {
            "1"@
        } else if t == "number"@ {
            "1.5"@
        } else if t == "boolean"@ {
            "true"@
        } else if t == "array"@ {
            "value"@
        } else if t == "string"@ {
            format_placeholder(schema_format(schema))
        } else {
            "value"@
        },
    }
}

/// The placeholder for a parameter's schema: its `example`, else its
/// `default`, else the first `enum` value, else what its type gives.
pub open spec fn placeholder_text(schema: JsonModel) -> Seq<char> {
    match schema.get("example"@) {
        Some(v) => scalar_text(v),
        None => match schema.get("default"@) {
            Some(v) => scalar_text(v),
            None => match first_enum_value(schema) {
                Some(v) => scalar_text(v),
                None => type_placeholder(schema),
            },
        },
    }
}

/// A schema that describes an object: `type` is `object`, or there is no
/// `type` but there are `properties`.
pub open spec fn is_object_schema(schema: JsonModel) -> bool {
    ||| schema_type(schema) == Some("object"@)
    ||| (schema.get("type"@) is None && schema.get("properties"@) is Some)
}

/// The schema's `properties`, where they are an object; none otherwise.
pub open spec fn schema_properties(schema: JsonModel) -> Seq<(Seq<char>, JsonModel)> {
    match schema.get("properties"@) {
        Some(JsonModel::Object(props)) => props,
        _ => Seq::empty(),
    }
}

/// The schema of an array's items: its `items`, or `null` where there are none.
pub open spec fn items_schema(schema: JsonModel) -> JsonModel {
    match schema.get("items"@) {
        Some(v) => v,
        None => JsonModel::Null,
    }
}

/// The schema is a composition (`oneOf`, `anyOf` or `allOf`), which is
/// not resolved: its example is `null`.
pub open spec fn is_composed_schema(schema: JsonModel) -> bool {
    ||| schema.get("oneOf"@) is Some
    ||| schema.get("anyOf"@) is Some
    ||| schema.get("allOf"@) is Some
}

/// The example value for a request-body schema met at nesting `depth`.
pub open spec fn example_value(schema: JsonModel, depth: nat) -> JsonModel
    decreases MAX_DEPTH - depth, 1int,
{
    match schema.get("example"@) {
        Some(v) => v,
        None => match schema.get("default"@) {
            Some(v) => v,
            None => match first_enum_value(schema) {
                Some(v) => v,
                None => if depth >= MAX_DEPTH || is_composed_schema(schema) {
                    JsonModel::Null
                } else if is_object_schema(schema) {
                    JsonModel::Object(property_examples(schema_properties(schema), depth))
                } else {
                    match schema_type(schema) {
                        Some(t) => if t == "array"@ {
                            JsonModel::Array(seq![example_value(items_schema(schema), depth + 1)])
                        } else if t == "integer"@ {
                            JsonModel::Number("1"@)
                        } else if t == "number"@ {
                            JsonModel::Number("1.5"@)
                        } else if t == "boolean"@ {
                            JsonModel::Bool(true)
                        } else if t == "string"@ {
                            JsonModel::Str(format_placeholder(schema_format(schema)))
                        } else {
                            JsonModel::Null
                        },
                        None => JsonModel::Str(format_placeholder(schema_format(schema))),
                    }
                },
            },
        },
    }
}


/// The members of an object example: each property's name with the
/// example value of its schema, one level deeper than `depth`.
pub open spec fn property_examples(props: Seq<(Seq<char>, JsonModel)>, depth: nat) -> Seq<
    (Seq<char>, JsonModel),
>
    decreases MAX_DEPTH - depth, 0int,
{
    Seq::new(
        props.len(),
        |i: int|
            (
                props[i].0,
                if depth < MAX_DEPTH {
                    example_value(props[i].1, depth + 1)
                } else {
                    JsonModel::Null
                },
            ),
    )
}

/// `Some(s@)` for `Some(s)`.
pub open spec fn opt_view(s: Option<&String>) -> Option<Seq<char>> {
    match s {
        Some(x) => Some(x@),
        None => None,
    }
}

/// A JSON scalar rendered as plain text for interpolation into a URL or a
/// header value; an array or an object comes out as its compact JSON text.
pub fn scalar_to_string(v: &Json) -> (r: String)
    ensures
        r@ == scalar_text(v@),
{
    match v {
        Json::Str(s) => s.clone(),
        Json::Number(n) => n.clone(),
        Json::Bool(b) => if *b {
            "true".to_string()
        } else {
            "false".to_string()
        },
        Json::Null => String::new(),
        _ => v.to_compact_string(),
    }
}

fn first_enum<'a>(schema: &'a Json) -> (r: Option<&'a Json>)
    ensures
        match r {
            Some(v) => first_enum_value(schema@) == Some(v@),
            None => first_enum_value(schema@) is None,
        },
{
    match schema.get("enum") {
        Some(Json::Array(items)) => if items.len() > 0 {
            Some(&items[0])
        } else {
            None
        },
        _ => None,
    }
}

fn format_placeholder_string(format: Option<&String>) -> (r: String)
    ensures
        r@ == format_placeholder(opt_view(format)),
{
    match format {
        Some(f) => {
            if str_equals(f.as_str(), "uuid") {
                "00000000-0000-0000-0000-000000000000".to_string()
            } else if str_equals(f.as_str(), "date") {
                "2024-01-01".to_string()
            } else if str_equals(f.as_str(), "date-time") {
                "2024-01-01T00:00:00Z".to_string()
            } else if str_equals(f.as_str(), "email") {
                "user@example.com".to_string()
            } else {
                "string".to_string()
            }
        },
        None => "string".to_string(),
    }
}

/// Resolves a single placeholder value for a parameter's JSON Schema,
/// in priority order: the schema's own `example`, then its `default`,
/// then the first `enum` value, then a type/format-based placeholder.
pub fn placeholder_for_schema(schema: &Json) -> (r: String)
    ensures
        r@ == placeholder_text(schema@),
{
    if let Some(v) = schema.get("example") {
        return scalar_to_string(v);
    }
    if let Some(v) = schema.get("default") {
        return scalar_to_string(v);
    }
    if let Some(first) = first_enum(schema) {
        return scalar_to_string(first);
    }
    match schema.get_str("type") {
        Some(t) => {
            if str_equals(t.as_str(), "integer") {
                "1".to_string()
            } else if str_equals(t.as_str(), "number") {
                "1.5".to_string()
            } else if str_equals(t.as_str(), "boolean") {
                "true".to_string()
            } else if str_equals(t.as_str(), "array") {
                "value".to_string()
            } else if str_equals(t.as_str(), "string") {
                format_placeholder_string(schema.get_str("format"))
            } else {
                "value".to_string()
            }
        },
        None => format_placeholder_string(schema.get_str("format")),
    }
}

/// Builds a full example JSON value for a request-body schema, walking
/// `properties`/`items` recursively, at most [`MAX_DEPTH`] levels deep.
/// A `oneOf`/`anyOf`/`allOf` composition is not resolved: it gives `null`.
pub fn build_json_example(schema: &Json) -> (r: Json)
    ensures
        r@ == example_value(schema@, 0),
{
    build_json_example_at(schema, 0)
}

fn build_json_example_at(schema: &Json, depth: usize) -> (r: Json)
    ensures
        r@ == example_value(schema@, depth as nat),
    decreases MAX_DEPTH - depth,
{
    if let Some(example) = schema.get("example") {
        return example.deep_copy();
    }
    if let Some(default) = schema.get("default") {
        return default.deep_copy();
    }
    if let Some(first) = first_enum(schema) {
        return first.deep_copy();
    }
    if depth >= MAX_DEPTH {
        return Json::Null;
    }
    if schema.get("oneOf").is_some() || schema.get("anyOf").is_some() || schema.get("allOf").is_some() {
        return Json::Null;
    }
    let ty = schema.get_str("type");
    let is_object = match ty {
        Some(t) => str_equals(t.as_str(), "object"),
        None => false,
    } || (schema.get("type").is_none() && schema.get("properties").is_some());
    if is_object {
        let ghost props_model = schema_properties(schema@);
        let mut out: Vec<(String, Json)> = Vec::new();
        if let Some(Json::Object(props)) = schema.get("properties") {
            let mut i: usize = 0;
            while i < props.len()
                invariant
                    depth < MAX_DEPTH,
                    i <= props@.len(),
                    props_model.len() == props@.len(),
                    forall|k: int|
                        0 <= k < props@.len() ==> #[trigger] props_model[k] == (
                            props@[k].0@,
                            props@[k].1@,
                        ),
                    out@.len() == i,
                    forall|k: int|
                        0 <= k < i ==> (#[trigger] out@[k]).0@ == props@[k].0@ && out@[k].1@
                            == example_value(props@[k].1@, depth as nat + 1),
                decreases props@.len() - i,
            {
                let child = build_json_example_at(&props[i].1, depth + 1);
                out.push((props[i].0.clone(), child));
                i = i + 1;
            }
        }
        let r = Json::Object(out);
        assert(r@->Object_0 =~= property_examples(props_model, depth as nat));
        return r;
    }
    match ty {
        Some(t) => {
            if str_equals(t.as_str(), "array") {
                let item = match schema.get("items") {
                    Some(items) => build_json_example_at(items, depth + 1),
                    None => build_json_example_at(&Json::Null, depth + 1),
                };
                let r = Json::Array(vec![item]);
                assert(r@->Array_0 =~= seq![example_value(items_schema(schema@), depth as nat + 1)]);
                r
            } else if str_equals(t.as_str(), "integer") {
                Json::Number("1".to_string())
            } else if str_equals(t.as_str(), "number") {
                Json::Number("1.5".to_string())
            } else if str_equals(t.as_str(), "boolean") {
                Json::Bool(true)
            } else if str_equals(t.as_str(), "string") {
                Json::Str(format_placeholder_string(schema.get_str("format")))
            } else {
                Json::Null
            }
        },
        None => Json::Str(format_placeholder_string(schema.get_str("format"))),
    }
}


/// The placeholder of a schema follows the priority chain: its `example`
/// wins over everything, its `default` over the `enum` and the type, the
/// first `enum` value over the type.
pub proof fn lemma_placeholder_priority(schema: JsonModel)
    ensures
        schema.get("example"@) matches Some(e) ==> placeholder_text(schema) == scalar_text(e),
        schema.get("example"@) is None ==> (schema.get("default"@) matches Some(d)
            ==> placeholder_text(schema) == scalar_text(d)),
        schema.get("example"@) is None && schema.get("default"@) is None ==> (first_enum_value(
            schema,
        ) matches Some(f) ==> placeholder_text(schema) == scalar_text(f)),
        schema.get("example"@) is None && schema.get("default"@) is None && first_enum_value(
            schema,
        ) is None ==> placeholder_text(schema) == type_placeholder(schema),
{
}

/// The example value of a request body follows the same chain: the
/// schema's `example`, else its `default`, else its first `enum` value
/// are taken as they are, whatever the schema's type says.
pub proof fn lemma_example_priority(schema: JsonModel, depth: nat)
    ensures
        schema.get("example"@) matches Some(e) ==> example_value(schema, depth) == e,
        schema.get("example"@) is None ==> (schema.get("default"@) matches Some(d)
            ==> example_value(schema, depth) == d),
        schema.get("example"@) is None && schema.get("default"@) is None ==> (first_enum_value(
            schema,
        ) matches Some(f) ==> example_value(schema, depth) == f),
{
}

/// Below the depth limit nothing is generated: the example is one the
/// schema itself gives, or `null`.  This is what makes a schema that
/// refers to itself end.
pub proof fn lemma_example_depth_limit(schema: JsonModel, depth: nat)
    requires
        depth >= MAX_DEPTH,
    ensures
        example_value(schema, depth) == match schema.get("example"@) {
            Some(e) => e,
            None => match schema.get("default"@) {
                Some(d) => d,
                None => match first_enum_value(schema) {
                    Some(f) => f,
                    None => JsonModel::Null,
                },
            },
        },
{
}

/// A `oneOf`/`anyOf`/`allOf` composition without an example, default or
/// enum of its own is not resolved: its example is `null`.
pub proof fn lemma_composed_schema_is_null(schema: JsonModel, depth: nat)
    requires
        schema.get("example"@) is None,
        schema.get("default"@) is None,
        first_enum_value(schema) is None,
        is_composed_schema(schema),
    ensures
        example_value(schema, depth) == JsonModel::Null,
{
}

/// The example of an object schema without an example of its own has
/// exactly the schema's properties as members, in their order, each
/// with the example of its own schema.
pub proof fn lemma_object_example_members(schema: JsonModel, depth: nat)
    requires
        schema.get("example"@) is None,
        schema.get("default"@) is None,
        first_enum_value(schema) is None,
        depth < MAX_DEPTH,
        !is_composed_schema(schema),
        is_object_schema(schema),
    ensures
        example_value(schema, depth) is Object,
        example_value(schema, depth)->Object_0.len() == schema_properties(schema).len(),
        forall|i: int|
            0 <= i < schema_properties(schema).len() ==> (#[trigger] example_value(
                schema,
                depth,
            )->Object_0[i]) == (
                schema_properties(schema)[i].0,
                example_value(schema_properties(schema)[i].1, depth + 1),
            ),
{
    let props = schema_properties(schema);
    let m = property_examples(props, depth);
    assert(example_value(schema, depth) == JsonModel::Object(m));
    assert(m.len() == props.len());
    assert forall|i: int| 0 <= i < props.len() implies #[trigger] m[i] == (
        props[i].0,
        example_value(props[i].1, depth + 1),
    ) by {}
}

proof fn lemma_type_and_format_names_differ()
    ensures
        "string"@ != "integer"@,
        "string"@ != "number"@,
        "string"@ != "boolean"@,
        "string"@ != "array"@,
        "string"@ != "object"@,
        "integer"@ != "number"@,
        "integer"@ != "boolean"@,
        "integer"@ != "array"@,
        "integer"@ != "object"@,
        "number"@ != "boolean"@,
        "number"@ != "array"@,
        "number"@ != "object"@,
        "boolean"@ != "array"@,
        "boolean"@ != "object"@,
        "array"@ != "object"@,
        "email"@ != "uuid"@,
        "email"@ != "date"@,
        "email"@ != "date-time"@,
        "date"@ != "uuid"@,
        "date-time"@ != "uuid"@,
        "date"@ != "date-time"@,
{
    reveal_strlit("string");
    reveal_strlit("integer");
    reveal_strlit("number");
    reveal_strlit("boolean");
    reveal_strlit("array");
    reveal_strlit("object");
    reveal_strlit("uuid");
    reveal_strlit("date");
    reveal_strlit("date-time");
    reveal_strlit("email");
    // They differ in their first letter or in their length.
    assert("string"@[0] != "integer"@[0]);
    assert("string"@[0] != "number"@[0]);
    assert("string"@[0] != "boolean"@[0]);
    assert("string"@[0] != "array"@[0]);
    assert("string"@[0] != "object"@[0]);
    assert("integer"@[0] != "number"@[0]);
    assert("integer"@[0] != "boolean"@[0]);
    assert("integer"@[0] != "array"@[0]);
    assert("integer"@[0] != "object"@[0]);
    assert("number"@[0] != "boolean"@[0]);
    assert("number"@[0] != "array"@[0]);
    assert("number"@[0] != "object"@[0]);
    assert("boolean"@[0] != "array"@[0]);
    assert("boolean"@[0] != "object"@[0]);
    assert("array"@[0] != "object"@[0]);
    assert("email"@[0] != "uuid"@[0] && "email"@[0] != "date"@[0]);
    assert("email"@[0] != "date-time"@[0] && "date"@[0] != "uuid"@[0]);
    assert("date-time"@[0] != "uuid"@[0] && "date"@.len() != "date-time"@.len());
}

/// A string schema with no example, default or enum takes its placeholder
/// from its `format`, whether its type is `string` or it has no type: an
/// email address for `email`, the zero UUID for `uuid`, a fixed day for
/// `date`, a fixed instant for `date-time`, and `string` without a format.
pub proof fn lemma_string_format_placeholders(schema: JsonModel)
    requires
        schema.get("example"@) is None,
        schema.get("default"@) is None,
        schema.get("enum"@) is None,
        schema.get("type"@) == Some(JsonModel::Str("string"@)) || schema.get("type"@) is None,
    ensures
        schema.get("format"@) == Some(JsonModel::Str("email"@)) ==> placeholder_text(schema)
            == "user@example.com"@,
        schema.get("format"@) == Some(JsonModel::Str("uuid"@)) ==> placeholder_text(schema)
            == "00000000-0000-0000-0000-000000000000"@,
        schema.get("format"@) == Some(JsonModel::Str("date"@)) ==> placeholder_text(schema)
            == "2024-01-01"@,
        schema.get("format"@) == Some(JsonModel::Str("date-time"@)) ==> placeholder_text(schema)
            == "2024-01-01T00:00:00Z"@,
        schema.get("format"@) is None ==> placeholder_text(schema) == "string"@,
{
    lemma_type_and_format_names_differ();
}

/// A value put into a URL or a header reads as itself: a string as its
/// text, a number as the text it was written with, a boolean as `true` or
/// `false`, `null` as nothing.
pub proof fn lemma_scalar_texts(text: Seq<char>, flag: bool)
    ensures
        scalar_text(JsonModel::Str(text)) == text,
        scalar_text(JsonModel::Number(text)) == text,
        scalar_text(JsonModel::Bool(flag)) == if flag {
            "true"@
        } else {
            "false"@
        },
        scalar_text(JsonModel::Null) == Seq::<char>::empty(),
{
}

/// Without an example or default, a schema whose `enum` is a non-empty
/// array gives its first value, whatever values follow: as the text of a
/// parameter and as a request-body value.
pub proof fn lemma_first_enum_value_wins(schema: JsonModel, depth: nat)
    requires
        schema.get("example"@) is None,
        schema.get("default"@) is None,
    ensures
        schema.get("enum"@) matches Some(JsonModel::Array(values)) ==> (values.len() > 0 ==> (
        placeholder_text(schema) == scalar_text(values[0]) && example_value(schema, depth)
            == values[0])),
{
}

/// Without an example, default or enum, a parameter's placeholder follows
/// its `type`: `1` for an integer, `1.5` for a number, `true` for a
/// boolean, `value` for an array or an object.
pub proof fn lemma_typed_placeholders(schema: JsonModel)
    requires
        schema.get("example"@) is None,
        schema.get("default"@) is None,
        schema.get("enum"@) is None,
    ensures
        schema.get("type"@) == Some(JsonModel::Str("integer"@)) ==> placeholder_text(schema)
            == "1"@,
        schema.get("type"@) == Some(JsonModel::Str("number"@)) ==> placeholder_text(schema)
            == "1.5"@,
        schema.get("type"@) == Some(JsonModel::Str("boolean"@)) ==> placeholder_text(schema)
            == "true"@,
        schema.get("type"@) == Some(JsonModel::Str("array"@)) ==> placeholder_text(schema)
            == "value"@,
        schema.get("type"@) == Some(JsonModel::Str("object"@)) ==> placeholder_text(schema)
            == "value"@,
{
    lemma_type_and_format_names_differ();
}

/// Without an example, default, enum or composition, above the depth
/// limit, a request-body value follows its `type`: the number `1` for an
/// integer, `1.5` for a number, `true` for a boolean, and for an array one
/// element, the example of its `items` schema one level deeper.
pub proof fn lemma_typed_examples(schema: JsonModel, depth: nat)
    requires
        schema.get("example"@) is None,
        schema.get("default"@) is None,
        schema.get("enum"@) is None,
        schema.get("oneOf"@) is None,
        schema.get("anyOf"@) is None,
        schema.get("allOf"@) is None,
        depth < MAX_DEPTH,
    ensures
        schema.get("type"@) == Some(JsonModel::Str("integer"@)) ==> example_value(schema, depth)
            == JsonModel::Number("1"@),
        schema.get("type"@) == Some(JsonModel::Str("number"@)) ==> example_value(schema, depth)
            == JsonModel::Number("1.5"@),
        schema.get("type"@) == Some(JsonModel::Str("boolean"@)) ==> example_value(schema, depth)
            == JsonModel::Bool(true),
        schema.get("type"@) == Some(JsonModel::Str("array"@)) ==> (schema.get("items"@) matches Some(
            items,
        ) ==> example_value(schema, depth) == JsonModel::Array(
            seq![example_value(items, depth + 1)],
        )),
{
    lemma_type_and_format_names_differ();
}

/// In a request body, a string schema with no example, default, enum or
/// composition, met above the depth limit, gives the string that the same
/// schema gives as a parameter placeholder: for a `format` of `email`,
/// `uuid`, `date` or `date-time`, the address, zero UUID, day or instant.
pub proof fn lemma_string_format_examples(schema: JsonModel, depth: nat)
    requires
        schema.get("example"@) is None,
        schema.get("default"@) is None,
        schema.get("enum"@) is None,
        schema.get("oneOf"@) is None,
        schema.get("anyOf"@) is None,
        schema.get("allOf"@) is None,
        depth < MAX_DEPTH,
        schema.get("type"@) == Some(JsonModel::Str("string"@)) || (schema.get("type"@) is None
            && schema.get("properties"@) is None),
    ensures
        example_value(schema, depth) == JsonModel::Str(placeholder_text(schema)),
        schema.get("format"@) == Some(JsonModel::Str("email"@)) ==> example_value(schema, depth)
            == JsonModel::Str("user@example.com"@),
        schema.get("format"@) == Some(JsonModel::Str("uuid"@)) ==> example_value(schema, depth)
            == JsonModel::Str("00000000-0000-0000-0000-000000000000"@),
        schema.get("format"@) == Some(JsonModel::Str("date"@)) ==> example_value(schema, depth)
            == JsonModel::Str("2024-01-01"@),
        schema.get("format"@) == Some(JsonModel::Str("date-time"@)) ==> example_value(
            schema,
            depth,
        ) == JsonModel::Str("2024-01-01T00:00:00Z"@),
        schema.get("format"@) is None ==> example_value(schema, depth) == JsonModel::Str(
            "string"@,
        ),
{
    lemma_type_and_format_names_differ();
    lemma_string_format_placeholders(schema);
}

/// The example built for a well-formed schema is well formed: every
/// object in it has its keys sorted, each once, as serde_json holds them.
pub proof fn lemma_example_wf(schema: JsonModel, depth: nat)
    requires
        schema.wf(),
    ensures
        example_value(schema, depth).wf(),
    decreases MAX_DEPTH - depth,
{
    schema.lemma_get_wf("example"@);
    schema.lemma_get_wf("default"@);
    schema.lemma_get_wf("enum"@);
    schema.lemma_get_wf("properties"@);
    schema.lemma_get_wf("items"@);
    if schema.get("example"@) is Some || schema.get("default"@) is Some {
    } else if first_enum_value(schema) is Some {
        schema.get("enum"@)->0.lemma_array_wf();
    } else if depth >= MAX_DEPTH || is_composed_schema(schema) {
    } else if is_object_schema(schema) {
        let props = schema_properties(schema);
        let members = property_examples(props, depth);
        if let Some(JsonModel::Object(ps)) = schema.get("properties"@) {
            schema.get("properties"@)->0.lemma_object_wf();
        }
        assert(sorted_keys(props));
        assert forall|i: int| 0 <= i < props.len() implies (#[trigger] props[i]).1.wf() by {
            if let Some(JsonModel::Object(ps)) = schema.get("properties"@) {
                assert(props[i] == ps[i]);
            }
        }
        assert(sorted_keys(members)) by {
            assert forall|i: int, j: int|
                0 <= i < j < members.len() implies text_less(
                    #[trigger] members[i].0,
                    #[trigger] members[j].0,
                ) by {
                assert(members[i].0 == props[i].0);
                assert(members[j].0 == props[j].0);
            }
        }
        assert forall|i: int| 0 <= i < members.len() implies #[trigger] members_wf(members)[i] by {
            lemma_example_wf(props[i].1, depth + 1);
        }
        assert(all_true(members_wf(members)));
        assert(JsonModel::Object(members).wf());
        assert(example_value(schema, depth) == JsonModel::Object(members));
    } else if schema_type(schema) == Some("array"@) {
        let item = example_value(items_schema(schema), depth + 1);
        lemma_example_wf(items_schema(schema), depth + 1);
        assert(items_wf(seq![item])[0]);
        assert(all_true(items_wf(seq![item])));
        assert(example_value(schema, depth) == JsonModel::Array(seq![item]));
    }
}

} // verus!
