use openapi2curl::{
    percent_encode, render_curl, render_listing, resolve_base_url, shell_quote, Json, Operation,
    ParamLocation, Parameter, RequestBody,
};

fn get_op(path: &str, params: Vec<Parameter>) -> Operation {
    Operation {
        method: "GET".to_string(),
        path: path.to_string(),
        parameters: params,
        request_body: None,
    }
}

fn param(name: &str, location: ParamLocation, value: &str) -> Parameter {
    Parameter {
        name: name.to_string(),
        location,
        required: false,
        value: value.to_string(),
    }
}

#[test]
fn get_with_path_and_query_params_renders_exact_structure() {
    let op = get_op(
        "/users/{id}",
        vec![
            param("id", ParamLocation::Path, "1"),
            param("include", ParamLocation::Query, "profile"),
        ],
    );
    let out = render_curl(&op, "https://api.example.com/v1");
    assert_eq!(
        out,
        "curl -X GET 'https://api.example.com/v1/users/1?include=profile' \\\n  -H 'Accept: application/json'"
    );
}

#[test]
fn multiple_query_parameters_preserve_declaration_order_and_are_joined_with_ampersand() {
    let op = get_op(
        "/users",
        vec![
            param("limit", ParamLocation::Query, "20"),
            param("status", ParamLocation::Query, "active"),
        ],
    );
    let out = render_curl(&op, "https://api.example.com");
    assert!(out.starts_with("curl -X GET 'https://api.example.com/users?limit=20&status=active'"));
}

#[test]
fn query_value_with_a_space_is_percent_encoded() {
    let op = get_op("/search", vec![param("q", ParamLocation::Query, "hello world")]);
    let out = render_curl(&op, "https://api.example.com");
    assert!(out.contains("q=hello%20world"));
}

#[test]
fn email_address_in_a_query_value_keeps_the_at_sign_unencoded() {
    let op = get_op("/lookup", vec![param("email", ParamLocation::Query, "user@example.com")]);
    let out = render_curl(&op, "https://api.example.com");
    assert!(out.contains("email=user@example.com"));
}

#[test]
fn header_parameter_renders_as_its_own_dash_h_line() {
    let op = get_op("/private", vec![param("X-Api-Key", ParamLocation::Header, "secret123")]);
    let out = render_curl(&op, "https://api.example.com");
    assert!(out.contains("-H 'X-Api-Key: secret123'"));
    assert!(out.contains("-H 'Accept: application/json'"));
}

#[test]
fn explicit_accept_header_is_not_duplicated() {
    let op = get_op("/negotiated", vec![param("Accept", ParamLocation::Header, "application/xml")]);
    let out = render_curl(&op, "https://api.example.com");
    assert_eq!(out.matches("Accept").count(), 1);
    assert!(out.contains("-H 'Accept: application/xml'"));
}

#[test]
fn post_with_json_body_renders_content_type_and_dash_d() {
    let body = Json::Object(vec![
        ("email".to_string(), Json::Str("user@example.com".to_string())),
        ("name".to_string(), Json::Str("string".to_string())),
    ]);
    let op = Operation {
        method: "POST".to_string(),
        path: "/users".to_string(),
        parameters: vec![],
        request_body: Some(RequestBody {
            content_type: "application/json".to_string(),
            json_body: Some(body),
        }),
    };
    let out = render_curl(&op, "https://api.example.com/v1");
    assert_eq!(
        out,
        "curl -X POST 'https://api.example.com/v1/users' \\\n  -H 'Accept: application/json' \\\n  -H 'Content-Type: application/json' \\\n  -d '{\"email\":\"user@example.com\",\"name\":\"string\"}'"
    );
}

#[test]
fn non_json_request_body_omits_dash_d_but_still_renders_the_command() {
    let op = Operation {
        method: "POST".to_string(),
        path: "/upload".to_string(),
        parameters: vec![],
        request_body: Some(RequestBody {
            content_type: "multipart/form-data".to_string(),
            json_body: None,
        }),
    };
    let out = render_curl(&op, "https://api.example.com");
    assert!(!out.contains("-d "));
    assert!(out.starts_with("curl -X POST 'https://api.example.com/upload'"));
}

#[test]
fn base_url_trailing_slash_does_not_produce_a_double_slash() {
    let op = get_op("/users", vec![]);
    let out = render_curl(&op, "https://api.example.com/");
    assert!(out.contains("'https://api.example.com/users'"));
    assert!(!out.contains("//users"));
}

#[test]
fn value_containing_a_single_quote_is_shell_escaped() {
    let op = get_op("/search", vec![param("q", ParamLocation::Query, "o%27brien")]);
    let op_with_header = get_op("/x", vec![param("X-Name", ParamLocation::Header, "O'Brien")]);
    let out = render_curl(&op_with_header, "https://api.example.com");
    assert!(out.contains(r"O'\''Brien"));
    let _ = render_curl(&op, "https://api.example.com");
}

#[test]
fn shell_quote_wraps_and_escapes() {
    assert_eq!(shell_quote("plain"), "'plain'");
    assert_eq!(shell_quote(""), "''");
    assert_eq!(shell_quote("it's"), r"'it'\''s'");
    assert_eq!(shell_quote("''"), r"''\'''\'''");
}

#[test]
fn percent_encode_keeps_unreserved_and_encodes_the_rest() {
    assert_eq!(percent_encode("AZaz09-_.~@:"), "AZaz09-_.~@:");
    assert_eq!(percent_encode("a b&c=d/e?"), "a%20b%26c%3Dd%2Fe%3F");
    assert_eq!(percent_encode("é"), "%C3%A9");
    assert_eq!(percent_encode("%"), "%25");
    assert_eq!(percent_encode(""), "");
}

#[test]
fn percent_encoding_decodes_back_to_the_same_bytes() {
    let source = "x y/é&'%";
    let encoded = percent_encode(source);
    let mut bytes = Vec::new();
    let chars: Vec<char> = encoded.chars().collect();
    let mut i = 0;
    while i < chars.len() {
        if chars[i] == '%' {
            let hex: String = chars[i + 1..i + 3].iter().collect();
            bytes.push(u8::from_str_radix(&hex, 16).unwrap());
            i += 3;
        } else {
            bytes.push(chars[i] as u8);
            i += 1;
        }
    }
    assert_eq!(bytes, source.as_bytes());
}

#[test]
fn path_placeholder_is_replaced_everywhere_and_unknown_ones_stay() {
    let op = get_op(
        "/a/{id}/b/{id}/{other}",
        vec![param("id", ParamLocation::Path, "7"), param("h", ParamLocation::Header, "v")],
    );
    let out = render_curl(&op, "http://h");
    assert!(out.starts_with("curl -X GET 'http://h/a/7/b/7/{other}' \\\n  -H 'h: v' \\\n  -H 'Accept: application/json'"));
}

#[test]
fn accept_header_match_ignores_case_and_cookies_are_not_rendered() {
    let op = get_op(
        "/c",
        vec![param("ACCEPT", ParamLocation::Header, "text/plain"), param("sid", ParamLocation::Cookie, "x")],
    );
    let out = render_curl(&op, "http://h//");
    assert_eq!(out, "curl -X GET 'http://h/c' \\\n  -H 'ACCEPT: text/plain'");
}

#[test]
fn listing_separates_operations_with_an_empty_line() {
    let ops = vec![get_op("/a", vec![]), get_op("/b", vec![])];
    let out = render_listing(&ops, "http://h");
    assert_eq!(
        out,
        "# GET /a\ncurl -X GET 'http://h/a' \\\n  -H 'Accept: application/json'\n\n# GET /b\ncurl -X GET 'http://h/b' \\\n  -H 'Accept: application/json'\n"
    );
    assert_eq!(render_listing(&vec![], "http://h"), "no operations found in spec\n");
}

#[test]
fn base_url_prefers_the_command_line_then_the_spec_then_localhost() {
    assert_eq!(
        resolve_base_url(Some("http://cli".to_string()), Some("http://spec".to_string())),
        "http://cli"
    );
    assert_eq!(resolve_base_url(None, Some("http://spec".to_string())), "http://spec");
    assert_eq!(resolve_base_url(None, None), "http://localhost:8080");
}

#[test]
fn query_string_splits_back_into_the_parameters() {
    let op = get_op(
        "/q",
        vec![
            param("a&b", ParamLocation::Query, "x=y"),
            param("id", ParamLocation::Path, "1"),
            param("c", ParamLocation::Query, "ü &"),
        ],
    );
    let out = render_curl(&op, "http://h");
    let url = out.split('\'').nth(1).unwrap();
    let query = url.split('?').nth(1).unwrap();
    let pairs: Vec<Vec<&str>> = query.split('&').map(|p| p.split('=').collect()).collect();
    assert_eq!(pairs, vec![vec!["a%26b", "x%3Dy"], vec!["c", "%C3%BC%20%26"]]);
}

#[test]
fn shell_quoted_text_reads_back_through_a_shell_word_reader() {
    // Reads a word made of single-quoted runs and backslash escapes.
    fn read_word(t: &str) -> String {
        let mut out = String::new();
        let mut quoted = false;
        let mut chars = t.chars();
        while let Some(c) = chars.next() {
            if quoted {
                if c == '\'' { quoted = false } else { out.push(c) }
            } else if c == '\'' {
                quoted = true;
            } else if c == '\\' {
                out.push(chars.next().unwrap());
            } else {
                out.push(c);
            }
        }
        assert!(!quoted);
        out
    }
    for s in ["", "a", "'", "it's a 'test'", "\\ \" $x `y`", "''''"] {
        assert_eq!(read_word(&shell_quote(s)), s);
    }
}

#[test]
fn url_depends_only_on_trimmed_base_path_and_url_parameters() {
    let op = get_op(
        "/items/{id}",
        vec![
            param("id", ParamLocation::Path, "7"),
            param("q", ParamLocation::Query, "a b"),
        ],
    );
    let other = Operation {
        method: "POST".to_string(),
        path: "/items/{id}".to_string(),
        parameters: vec![
            param("X-Trace", ParamLocation::Header, "1"),
            param("id", ParamLocation::Path, "7"),
            param("session", ParamLocation::Cookie, "s"),
            param("q", ParamLocation::Query, "a b"),
        ],
        request_body: Some(RequestBody {
            content_type: "application/json".to_string(),
            json_body: Some(Json::Null),
        }),
    };
    let first = render_curl(&op, "http://h");
    let second = render_curl(&other, "http://h///");
    assert_eq!(first.lines().next().unwrap(), "curl -X GET 'http://h/items/7?q=a%20b' \\");
    assert_eq!(second.lines().next().unwrap(), "curl -X POST 'http://h/items/7?q=a%20b' \\");
}

#[test]
fn control_characters_in_a_json_body_are_escaped_as_serde_json_does() {
    let body = Json::Object(vec![(
        "k".to_string(),
        Json::Str("\u{1}\t\"\\\u{1f}\u{7f}é".to_string()),
    )]);
    let op = Operation {
        method: "POST".to_string(),
        path: "/p".to_string(),
        parameters: vec![],
        request_body: Some(RequestBody {
            content_type: "application/json".to_string(),
            json_body: Some(body),
        }),
    };
    let out = render_curl(&op, "http://h");
    let last = out.lines().last().unwrap();
    assert_eq!(last, "  -d '{\"k\":\"\\u0001\\t\\\"\\\\\\u001f\u{7f}é\"}'");
}
