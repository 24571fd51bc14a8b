use vstd::prelude::*;

use crate::example::{
    build_json_example, example_value, placeholder_for_schema, placeholder_text, scalar_text,
    scalar_to_string,
};
use crate::json::{
    json_document, lemma_lookup_none, lookup, parse_json_text, parse_yaml_text, yaml_document, Json,
    JsonModel,
};
use crate::text::str_equals;

verus! {

/// Where a parameter goes in the request.
#[derive(Debug, Clone, Copy, PartialEq, Eq, Structural)]
pub enum ParamLocation {
    Path,
    Query,
    Header,
    Cookie,
}

/// One parameter of an operation.
#[derive(Debug, Clone, PartialEq)]
pub struct Parameter {
    pub name: String,
    pub location: ParamLocation,
    pub required: bool,
    /// The resolved example/default/type-based placeholder, already a
    /// plain string ready to interpolate into a URL or header.
    pub value: String,
}

/// The request body of an operation.
#[derive(Debug, Clone, PartialEq)]
pub struct RequestBody {
    pub content_type: String,
    /// `None` when the body's content type isn't `application/json`:
    /// only JSON bodies are rendered.
    pub json_body: Option<Json>,
}

/// One method on one path.
#[derive(Debug, Clone, PartialEq)]
pub struct Operation {
    pub method: String,
    pub path: String,
    pub parameters: Vec<Parameter>,
    pub request_body: Option<RequestBody>,
}

/// What a spec document yields: its first server's URL and its operations.
#[derive(Debug)]
pub struct ParsedSpec {
    pub base_url: Option<String>,
    pub operations: Vec<Operation>,
}

/// Why a document could not be read as an OpenAPI spec.
#[derive(Debug, Clone, PartialEq, Eq)]
pub enum SpecError {
    /// The text is neither JSON nor YAML; holds the message of the YAML
    /// reader's error, which says where and why it stopped.
    InvalidDocument(String),
    /// The document has no top-level `paths` object.
    MissingPaths,
}

/// The mathematical value of a [`SpecError`].
pub enum SpecErrorModel {
    InvalidDocument(Seq<char>),
    MissingPaths,
}

impl View for SpecError {
    type V = SpecErrorModel;

    open spec fn view(&self) -> SpecErrorModel {
        match self {
            SpecError::InvalidDocument(cause) => SpecErrorModel::InvalidDocument(cause@),
            SpecError::MissingPaths => SpecErrorModel::MissingPaths,
        }
    }
}

/// The message that states an error.
pub open spec fn error_text(e: SpecErrorModel) -> Seq<char> {
    match e {
        SpecErrorModel::InvalidDocument(_) => "not valid JSON or YAML"@,
        SpecErrorModel::MissingPaths => "no top-level 'paths' object — not an OpenAPI spec?"@,
    }
}

/// What lies behind an error: the YAML reader's message for a document
/// that is not JSON or YAML; nothing for a missing `paths` object.
pub open spec fn error_cause(e: SpecErrorModel) -> Option<Seq<char>> {
    match e {
        SpecErrorModel::InvalidDocument(cause) => Some(cause),
        SpecErrorModel::MissingPaths => None,
    }
}

impl SpecError {
    /// The message that states this error.
    pub fn message(&self) -> (r: String)
        ensures
            r@ == error_text(self@),
    {
        match self {
            SpecError::InvalidDocument(_) => "not valid JSON or YAML".to_string(),
            SpecError::MissingPaths => "no top-level 'paths' object — not an OpenAPI spec?".to_string(),
        }
    }

    /// The error that caused this one, as text, where there is one.
    pub fn cause(&self) -> (r: Option<String>)
        ensures
            match r {
                Some(c) => error_cause(self@) == Some(c@),
                None => error_cause(self@) is None,
            },
    {
        match self {
            SpecError::InvalidDocument(cause) => Some(cause.clone()),
            SpecError::MissingPaths => None,
        }
    }
}

pub struct ParameterModel {
    pub name: Seq<char>,
    pub location: ParamLocation,
    pub required: bool,
    pub value: Seq<char>,
}

pub struct RequestBodyModel {
    pub content_type: Seq<char>,
    pub json_body: Option<JsonModel>,
}

pub struct OperationModel {
    pub method: Seq<char>,
    pub path: Seq<char>,
    pub parameters: Seq<ParameterModel>,
    pub request_body: Option<RequestBodyModel>,
}

pub struct ParsedSpecModel {
    pub base_url: Option<Seq<char>>,
    pub operations: Seq<OperationModel>,
}

impl View for Parameter {
    type V = ParameterModel;

    open spec fn view(&self) -> ParameterModel {
        ParameterModel {
            name: self.name@,
            location: self.location,
            required: self.required,
            value: self.value@,
        }
    }
}

impl View for RequestBody {
    type V = RequestBodyModel;

    open spec fn view(&self) -> RequestBodyModel {
        RequestBodyModel {
            content_type: self.content_type@,
            json_body: match self.json_body {
                Some(j) => Some(j@),
                None => None,
            },
        }
    }
}

/// The models of a sequence of parameters.
pub open spec fn parameter_models(ps: Seq<Parameter>) -> Seq<ParameterModel> {
    Seq::new(ps.len(), |i: int| ps[i]@)
}

impl View for Operation {
    type V = OperationModel;

    open spec fn view(&self) -> OperationModel {
        OperationModel {
            method: self.method@,
            path: self.path@,
            parameters: parameter_models(self.parameters@),
            request_body: match self.request_body {
                Some(b) => Some(b@),
                None => None,
            },
        }
    }
}

/// The models of a sequence of operations.
pub open spec fn operation_models(ops: Seq<Operation>) -> Seq<OperationModel> {
    Seq::new(ops.len(), |i: int| ops[i]@)
}

impl View for ParsedSpec {
    type V = ParsedSpecModel;

    open spec fn view(&self) -> ParsedSpecModel {
        ParsedSpecModel {
            base_url: match self.base_url {
                Some(u) => Some(u@),
                None => None,
            },
            operations: operation_models(self.operations@),
        }
    }
}

/// The location that the text of a parameter's `in` names.
pub open spec fn location_of(text: Seq<char>) -> Option<ParamLocation> {
    if text == "path"@ {
        Some(ParamLocation::Path)
    } else if text == "query"@ {
        Some(ParamLocation::Query)
    } else if text == "header"@ {
        Some(ParamLocation::Header)
    } else if text == "cookie"@ {
        Some(ParamLocation::Cookie)
    } else {
        None
    }
}

/// The schema of a parameter: its `schema`, or the empty schema.
pub open spec fn parameter_schema(p: JsonModel) -> JsonModel {
    match p.get("schema"@) {
        Some(s) => s,
        None => JsonModel::Object(Seq::empty()),
    }
}

/// The parameter that a parameter object describes: `None` where it has
/// no string `name`, no string `in`, or an `in` that names no location.
/// Its value is its own `example`, else the placeholder of its schema.
pub open spec fn parameter_of(p: JsonModel) -> Option<ParameterModel> {
    match p.str_member("name"@) {
        None => None,
        Some(name) => match p.str_member("in"@) {
            None => None,
            Some(in_text) => match location_of(in_text) {
                None => None,
                Some(location) => Some(
                    ParameterModel {
                        name,
                        location,
                        required: match p.get("required"@) {
                            Some(JsonModel::Bool(b)) => b,
                            _ => false,
                        },
                        value: match p.get("example"@) {
                            Some(e) => scalar_text(e),
                            None => placeholder_text(parameter_schema(p)),
                        },
                    },
                ),
            },
        },
    }
}

/// The parameters that a list of parameter objects describes, in order,
/// skipping those that describe none.
pub open spec fn parameters_of(ps: Seq<JsonModel>) -> Seq<ParameterModel>
    decreases ps.len(),
{
    if ps.len() == 0 {
        Seq::empty()
    } else {
        parameters_of(ps.drop_last()) + match parameter_of(ps.last()) {
            Some(x) => seq![x],
            None => Seq::empty(),
        }
    }
}

/// The parameters of an operation object: those its `parameters` array describes.
pub open spec fn operation_parameters(op: JsonModel) -> Seq<ParameterModel> {
    match op.get("parameters"@) {
        Some(JsonModel::Array(ps)) => parameters_of(ps),
        _ => Seq::empty(),
    }
}

/// The example a JSON media type object carries: its `example`, else the
/// `value` of the first of its `examples`.
pub open spec fn media_example(media: JsonModel) -> Option<JsonModel> {
    match media.get("example"@) {
        Some(e) => Some(e),
        None => match media.get("examples"@) {
            Some(JsonModel::Object(exs)) => if exs.len() > 0 {
                exs[0].1.get("value"@)
            } else {
                None
            },
            _ => None,
        },
    }
}

/// The body of a JSON media type: its example, else one built from its
/// `schema`, else `null`.
pub open spec fn media_body(media: JsonModel) -> JsonModel {
    match media_example(media) {
        Some(e) => e,
        None => match media.get("schema"@) {
            Some(s) => example_value(s, 0),
            None => JsonModel::Null,
        },
    }
}

/// The request body of an operation object: from the `application/json`
/// entry of `requestBody.content` where there is one, else from its first
/// entry, which gets no JSON body; `None` where there is no such entry.
pub open spec fn request_body_of(op: JsonModel) -> Option<RequestBodyModel> {
    match op.get("requestBody"@) {
        None => None,
        Some(rb) => match rb.get("content"@) {
            Some(JsonModel::Object(content)) => match lookup(content, "application/json"@) {
                Some(media) => Some(
                    RequestBodyModel {
                        content_type: "application/json"@,
                        json_body: Some(media_body(media)),
                    },
                ),
                None => if content.len() == 0 {
                    None
                } else {
                    Some(RequestBodyModel { content_type: content[0].0, json_body: None })
                },
            },
            _ => None,
        },
    }
}

/// The methods that a path item may hold, in the order they are read,
/// each with the name it is printed under.
pub open spec fn http_methods() -> Seq<(Seq<char>, Seq<char>)> {
    seq![
        ("get"@, "GET"@),
        ("post"@, "POST"@),
        ("put"@, "PUT"@),
        ("patch"@, "PATCH"@),
        ("delete"@, "DELETE"@),
        ("options"@, "OPTIONS"@),
        ("head"@, "HEAD"@),
        ("trace"@, "TRACE"@),
    ]
}

/// The operation that the operation object `op` describes for `method` on `path`.
pub open spec fn operation_of(path: Seq<char>, method: Seq<char>, op: JsonModel) -> OperationModel {
    OperationModel {
        method,
        path,
        parameters: operation_parameters(op),
        request_body: request_body_of(op),
    }
}

/// The operations of a path item for the first `n` methods of [`http_methods`].
pub open spec fn method_operations(path: Seq<char>, item: JsonModel, n: nat) -> Seq<OperationModel>
    decreases n,
{
    if n == 0 {
        Seq::empty()
    } else {
        let m = http_methods()[n - 1];
        method_operations(path, item, (n - 1) as nat) + match item.get(m.0) {
            Some(op) => seq![operation_of(path, m.1, op)],
            None => Seq::empty(),
        }
    }
}

/// The operations of one path item; none where it is not an object.
pub open spec fn path_operations(path: Seq<char>, item: JsonModel) -> Seq<OperationModel> {
    match item {
        JsonModel::Object(_) => method_operations(path, item, 8),
        _ => Seq::empty(),
    }
}

/// The operations of the `paths` object, path by path in its order.
pub open spec fn operations_of(paths: Seq<(Seq<char>, JsonModel)>) -> Seq<OperationModel>
    decreases paths.len(),
{
    if paths.len() == 0 {
        Seq::empty()
    } else {
        operations_of(paths.drop_last()) + path_operations(paths.last().0, paths.last().1)
    }
}

/// The `url` of the document's first server, where it is a string.
pub open spec fn server_url(root: JsonModel) -> Option<Seq<char>> {
    match root.get("servers"@) {
        Some(JsonModel::Array(servers)) => if servers.len() > 0 {
            servers[0].str_member("url"@)
        } else {
            None
        },
        _ => None,
    }
}

/// What a parsed document yields as a spec.
pub open spec fn document_spec(root: JsonModel) -> Result<ParsedSpecModel, SpecErrorModel> {
    match root.get("paths"@) {
        Some(JsonModel::Object(paths)) => Ok(
            ParsedSpecModel { base_url: server_url(root), operations: operations_of(paths) },
        ),
        _ => Err(SpecErrorModel::MissingPaths),
    }
}

/// What the text of a spec yields: read as JSON, else as YAML; where it is
/// neither, the error carries the YAML reader's message.
pub open spec fn text_spec(text: Seq<char>) -> Result<ParsedSpecModel, SpecErrorModel> {
    match json_document(text) {
        Some(root) => document_spec(root),
        None => match yaml_document(text) {
            Ok(root) => document_spec(root),
            Err(cause) => Err(SpecErrorModel::InvalidDocument(cause)),
        },
    }
}


/// `Some(j@)` for `Some(j)`.
pub open spec fn json_opt_view(j: Option<&Json>) -> Option<JsonModel> {
    match j {
        Some(x) => Some(x@),
        None => None,
    }
}

fn location_from(text: &str) -> (r: Option<ParamLocation>)
    ensures
        r == location_of(text@),
{
    if str_equals(text, "path") {
        Some(ParamLocation::Path)
    } else if str_equals(text, "query") {
        Some(ParamLocation::Query)
    } else if str_equals(text, "header") {
        Some(ParamLocation::Header)
    } else if str_equals(text, "cookie") {
        Some(ParamLocation::Cookie)
    } else {
        None
    }
}

fn parameter_from(p: &Json) -> (r: Option<Parameter>)
    ensures
        match r {
            Some(x) => parameter_of(p@) == Some(x@),
            None => parameter_of(p@) is None,
        },
{
    let name = match p.get_str("name") {
        Some(n) => n.clone(),
        None => return None,
    };
    let location = match p.get_str("in") {
        Some(t) => match location_from(t.as_str()) {
            Some(l) => l,
            None => return None,
        },
        None => return None,
    };
    let required = match p.get("required") {
        Some(Json::Bool(b)) => *b,
        _ => false,
    };
    let value = match p.get("example") {
        Some(example) => scalar_to_string(example),
        None => match p.get("schema") {
            Some(schema) => placeholder_for_schema(schema),
            None => {
                let empty = Json::Object(Vec::new());
                assert(empty@->Object_0 =~= Seq::empty());
                placeholder_for_schema(&empty)
            },
        },
    };
    Some(Parameter { name, location, required, value })
}

/// The parameters of an operation object, in the order its `parameters`
/// array lists them; entries without a usable `name` and `in` are skipped.
pub fn extract_parameters(operation: &Json) -> (r: Vec<Parameter>)
    ensures
        parameter_models(r@) == operation_parameters(operation@),
{
    let mut out: Vec<Parameter> = Vec::new();
    match operation.get("parameters") {
        Some(Json::Array(params)) => {
            let ghost ps = Seq::new(params@.len(), |i: int| params@[i]@);
            let mut i: usize = 0;
            while i < params.len()
                invariant
                    i <= params@.len(),
                    ps.len() == params@.len(),
                    forall|k: int| 0 <= k < ps.len() ==> #[trigger] ps[k] == params@[k]@,
                    parameter_models(out@) == parameters_of(ps.take(i as int)),
                decreases params@.len() - i,
            {
                let ghost before = out@;
                assert(ps.take(i + 1).drop_last() =~= ps.take(i as int));
                match parameter_from(&params[i]) {
                    Some(x) => {
                        out.push(x);
                        assert(parameter_models(out@) =~= parameter_models(before) + seq![x@]);
                    },
                    None => {},
                }
                i = i + 1;
            }
            assert(ps.take(params@.len() as int) =~= ps);
            proof {
                let m = operation@.get("parameters"@);
                assert(m matches Some(JsonModel::Array(_)));
                assert(m->0->Array_0 =~= ps);
            }
            out
        },
        _ => out,
    }
}


fn media_example_from(media: &Json) -> (r: Option<&Json>)
    ensures
        json_opt_view(r) == media_example(media@),
{
    if let Some(e) = media.get("example") {
        return Some(e);
    }
    match media.get("examples") {
        Some(Json::Object(exs)) => if exs.len() > 0 {
            exs[0].1.get("value")
        } else {
            None
        },
        _ => None,
    }
}

/// The request body of an operation object: its `application/json`
/// content with an example body (the media type's own example, else one
/// built from its schema), or else its first content type, without a body.
pub fn extract_request_body(operation: &Json) -> (r: Option<RequestBody>)
    ensures
        match r {
            Some(b) => request_body_of(operation@) == Some(b@),
            None => request_body_of(operation@) is None,
        },
{
    let rb = operation.get("requestBody")?;
    let content = rb.get("content")?;
    let entries = match content {
        Json::Object(entries) => entries,
        _ => return None,
    };
    match content.get("application/json") {
        Some(media) => {
            let body = match media_example_from(media) {
                Some(e) => e.deep_copy(),
                None => match media.get("schema") {
                    Some(schema) => build_json_example(schema),
                    None => Json::Null,
                },
            };
            Some(RequestBody { content_type: "application/json".to_string(), json_body: Some(body) })
        },
        None => {
            if entries.len() == 0 {
                None
            } else {
                Some(RequestBody { content_type: entries[0].0.clone(), json_body: None })
            }
        },
    }
}

fn http_method(k: usize) -> (r: (&'static str, &'static str))
    requires
        k < 8,
    ensures
        (r.0@, r.1@) == http_methods()[k as int],
{
    match k {
        0 => ("get", "GET"),
        1 => ("post", "POST"),
        2 => ("put", "PUT"),
        3 => ("patch", "PATCH"),
        4 => ("delete", "DELETE"),
        5 => ("options", "OPTIONS"),
        6 => ("head", "HEAD"),
        _ => ("trace", "TRACE"),
    }
}

fn operation_from(path: &String, method: &str, op: &Json) -> (r: Operation)
    ensures
        r@ == operation_of(path@, method@, op@),
{
    let parameters = extract_parameters(op);
    let request_body = extract_request_body(op);
    Operation { method: method.to_string(), path: path.clone(), parameters, request_body }
}

/// Reads the operations of an already parsed OpenAPI document: one per
/// path and method, paths in the order the `paths` object holds them and
/// methods in the order get, post, put, patch, delete, options, head, trace.
pub fn parse_spec_document(root: &Json) -> (r: Result<ParsedSpec, SpecError>)
    ensures
        match r {
            Ok(p) => document_spec(root@) == Ok::<ParsedSpecModel, SpecErrorModel>(p@),
            Err(e) => document_spec(root@) == Err::<ParsedSpecModel, SpecErrorModel>(e@),
        },
        root@.wf() ==> (r matches Ok(p) ==> distinct_operations(p@.operations)),
{
    let base_url = match root.get("servers") {
        Some(Json::Array(servers)) => if servers.len() > 0 {
            match servers[0].get_str("url") {
                Some(u) => Some(u.clone()),
                None => None,
            }
        } else {
            None
        },
        _ => None,
    };
    let paths = match root.get("paths") {
        Some(Json::Object(paths)) => paths,
        _ => return Err(SpecError::MissingPaths),
    };
    let ghost pm = Seq::new(paths@.len(), |i: int| (paths@[i].0@, paths@[i].1@));
    let mut operations: Vec<Operation> = Vec::new();
    let mut i: usize = 0;
    while i < paths.len()
        invariant
            i <= paths@.len(),
            pm.len() == paths@.len(),
            forall|k: int| 0 <= k < pm.len() ==> #[trigger] pm[k] == (paths@[k].0@, paths@[k].1@),
            operation_models(operations@) == operations_of(pm.take(i as int)),
        decreases paths@.len() - i,
    {
        let ghost before = operations@;
        assert(pm.take(i + 1).drop_last() =~= pm.take(i as int));
        let path = &paths[i].0;
        let item = &paths[i].1;
        if let Json::Object(_) = item {
            let mut k: usize = 0;
            while k < 8
                invariant
                    k <= 8,
                    item@ is Object,
                    operation_models(operations@) == operation_models(before) + method_operations(
                        path@,
                        item@,
                        k as nat,
                    ),
                decreases 8 - k,
            {
                let ghost mid = operations@;
                let (key, upper) = http_method(k);
                match item.get(key) {
                    Some(op) => {
                        let o = operation_from(path, upper, op);
                        operations.push(o);
                        assert(operation_models(operations@) =~= operation_models(mid) + seq![o@]);
                    },
                    None => {},
                }
                k = k + 1;
            }
        }
        assert(operation_models(operations@) =~= operations_of(pm.take(i + 1)));
        i = i + 1;
    }
    assert(pm.take(paths@.len() as int) =~= pm);
    proof {
        let m = root@.get("paths"@);
        assert(m matches Some(JsonModel::Object(_)));
        assert(m->0->Object_0 =~= pm);
        if root@.wf() {
            root@.lemma_get_wf("paths"@);
            m->0.lemma_object_wf();
            lemma_operations_distinct(pm);
        }
    }
    Ok(ParsedSpec { base_url, operations })
}

/// Parses an OpenAPI 3.x document, JSON or YAML.  JSON is tried first
/// (a strict parse); a document that isn't valid JSON falls back to YAML.
pub fn parse_spec(content: &str) -> (r: Result<ParsedSpec, SpecError>)
    ensures
        match r {
            Ok(p) => text_spec(content@) == Ok::<ParsedSpecModel, SpecErrorModel>(p@),
            Err(e) => text_spec(content@) == Err::<ParsedSpecModel, SpecErrorModel>(e@),
        },
        r matches Ok(p) ==> distinct_operations(p@.operations),
{
    match parse_json_text(content) {
        Some(root) => parse_spec_document(&root),
        None => match parse_yaml_text(content) {
            Ok(root) => parse_spec_document(&root),
            Err(cause) => Err(SpecError::InvalidDocument(cause)),
        },
    }
}


/// The operation object under the `k`-th method key of a path item.
pub open spec fn method_member(item: JsonModel, k: int) -> Option<JsonModel> {
    item.get(http_methods()[k].0)
}

/// The operation that the `k`-th method key of a path item gives.
pub open spec fn method_operation(path: Seq<char>, item: JsonModel, k: int) -> OperationModel {
    operation_of(path, http_methods()[k].1, method_member(item, k)->0)
}

/// The operation comes from a method key of a path item: it is what the
/// operation object under one of the eight method keys of one path gives.
pub open spec fn from_method_key(op: OperationModel, paths: Seq<(Seq<char>, JsonModel)>) -> bool {
    exists|p: int, k: int|
        0 <= p < paths.len() && 0 <= k < 8 && (#[trigger] method_member(paths[p].1, k)) is Some
            && op == method_operation(paths[p].0, paths[p].1, k)
}

proof fn lemma_method_operations_sound(path: Seq<char>, item: JsonModel, n: nat)
    requires
        n <= 8,
    ensures
        forall|i: int|
            0 <= i < method_operations(path, item, n).len() ==> exists|k: int|
                0 <= k < n && (#[trigger] method_member(item, k)) is Some && (
                #[trigger] method_operations(path, item, n)[i]) == method_operation(path, item, k),
    decreases n,
{
    if n > 0 {
        lemma_method_operations_sound(path, item, (n - 1) as nat);
        let prev = method_operations(path, item, (n - 1) as nat);
        let all = method_operations(path, item, n);
        assert forall|i: int| 0 <= i < all.len() implies exists|k: int|
            0 <= k < n && (#[trigger] method_member(item, k)) is Some && (#[trigger] all[i])
                == method_operation(path, item, k) by {
            if i < prev.len() {
                assert(all[i] == prev[i]);
            } else {
                let k = n - 1;
                assert(method_member(item, k) is Some);
            }
        }
    }
}

proof fn lemma_method_operations_complete(path: Seq<char>, item: JsonModel, n: nat, k: int)
    requires
        n <= 8,
        0 <= k < n,
        method_member(item, k) is Some,
    ensures
        method_operations(path, item, n).contains(method_operation(path, item, k)),
    decreases n,
{
    let all = method_operations(path, item, n);
    let prev = method_operations(path, item, (n - 1) as nat);
    let op = method_operation(path, item, k);
    if k < n - 1 {
        lemma_method_operations_complete(path, item, (n - 1) as nat, k);
        let j = choose|j: int| 0 <= j < prev.len() && prev[j] == op;
        assert(all[j] == prev[j]);
    } else {
        assert(all[prev.len() as int] == op);
    }
}

/// Every operation read from a document comes from one of the eight HTTP
/// method keys of one of its path items: other keys of a path item, such
/// as a shared `parameters` list, give no operation.
pub proof fn lemma_operations_sound(paths: Seq<(Seq<char>, JsonModel)>)
    ensures
        forall|i: int|
            0 <= i < operations_of(paths).len() ==> from_method_key(
                #[trigger] operations_of(paths)[i],
                paths,
            ),
    decreases paths.len(),
{
    if paths.len() > 0 {
        let init = paths.drop_last();
        lemma_operations_sound(init);
        let prev = operations_of(init);
        let last = paths.last();
        let all = operations_of(paths);
        lemma_method_operations_sound(last.0, last.1, 8);
        assert forall|i: int| 0 <= i < all.len() implies from_method_key(#[trigger] all[i], paths) by {
            if i < prev.len() {
                assert(all[i] == prev[i]);
                assert(from_method_key(prev[i], init));
                let (p, k) = choose|p: int, k: int|
                    0 <= p < init.len() && 0 <= k < 8 && (#[trigger] method_member(init[p].1, k))
                        is Some && prev[i] == method_operation(init[p].0, init[p].1, k);
                assert(paths[p] == init[p]);
                assert(method_member(paths[p].1, k) is Some);
            } else {
                let j = i - prev.len();
                let mops = method_operations(last.0, last.1, 8);
                assert(last.1 is Object);
                assert(all[i] == mops[j]);
                let k = choose|k: int|
                    0 <= k < 8 && (#[trigger] method_member(last.1, k)) is Some && mops[j]
                        == method_operation(last.0, last.1, k);
                let p = paths.len() - 1;
                assert(paths[p] == last);
                assert(method_member(paths[p].1, k) is Some);
            }
        }
    }
}

/// Every method key of every path item that is an object gives an
/// operation: none is dropped.
pub proof fn lemma_operations_complete(paths: Seq<(Seq<char>, JsonModel)>, p: int, k: int)
    requires
        0 <= p < paths.len(),
        0 <= k < 8,
        paths[p].1 is Object,
        method_member(paths[p].1, k) is Some,
    ensures
        operations_of(paths).contains(method_operation(paths[p].0, paths[p].1, k)),
    decreases paths.len(),
{
    let init = paths.drop_last();
    let prev = operations_of(init);
    let all = operations_of(paths);
    let op = method_operation(paths[p].0, paths[p].1, k);
    if p < paths.len() - 1 {
        assert(init[p] == paths[p]);
        lemma_operations_complete(init, p, k);
        let j = choose|j: int| 0 <= j < prev.len() && prev[j] == op;
        assert(all[j] == prev[j]);
    } else {
        let last = paths.last();
        lemma_method_operations_complete(last.0, last.1, 8, k);
        let mops = method_operations(last.0, last.1, 8);
        let j = choose|j: int| 0 <= j < mops.len() && mops[j] == op;
        assert(all[prev.len() + j] == mops[j]);
    }
}

proof fn lemma_http_method_names_distinct()
    ensures
        forall|a: int, b: int| 0 <= a < b < 8 ==> #[trigger] http_methods()[a].1 != #[trigger] http_methods()[b].1,
{
    reveal_strlit("GET");
    reveal_strlit("POST");
    reveal_strlit("PUT");
    reveal_strlit("PATCH");
    reveal_strlit("DELETE");
    reveal_strlit("OPTIONS");
    reveal_strlit("HEAD");
    reveal_strlit("TRACE");
    let m = http_methods();
    assert forall|a: int, b: int| 0 <= a < b < 8 implies #[trigger] m[a].1 != #[trigger] m[b].1 by {
        assert(m[a].1[0] != m[b].1[0] || m[a].1.len() != m[b].1.len() || m[a].1[1] != m[b].1[1]);
    }
}

proof fn lemma_method_operations_distinct(path: Seq<char>, item: JsonModel, n: nat)
    requires
        n <= 8,
    ensures
        forall|i: int|
            0 <= i < method_operations(path, item, n).len() ==> (#[trigger] method_operations(
                path,
                item,
                n,
            )[i]).path == path,
        forall|i: int, j: int|
            0 <= i < j < method_operations(path, item, n).len() ==> (#[trigger] method_operations(
                path,
                item,
                n,
            )[i]).method != (#[trigger] method_operations(path, item, n)[j]).method,
    decreases n,
{
    if n > 0 {
        lemma_method_operations_distinct(path, item, (n - 1) as nat);
        lemma_method_operations_sound(path, item, (n - 1) as nat);
        lemma_http_method_names_distinct();
        let prev = method_operations(path, item, (n - 1) as nat);
        let all = method_operations(path, item, n);
        assert forall|i: int| 0 <= i < all.len() implies (#[trigger] all[i]).path == path by {
            if i < prev.len() {
                assert(all[i] == prev[i]);
            }
        }
        assert forall|i: int, j: int|
            0 <= i < j < all.len() implies (#[trigger] all[i]).method != (#[trigger] all[j]).method by {
            assert(all[i] == prev[i]);
            if j < prev.len() {
                assert(all[j] == prev[j]);
            } else {
                let k = choose|k: int|
                    0 <= k < n - 1 && (#[trigger] method_member(item, k)) is Some && prev[i]
                        == method_operation(path, item, k);
                assert(all[j].method == http_methods()[n - 1].1);
                assert(http_methods()[k].1 != http_methods()[n - 1].1);
            }
        }
    }
}

/// No two of the operations share both path and method.
pub open spec fn distinct_operations(ops: Seq<OperationModel>) -> bool {
    forall|i: int, j: int|
        0 <= i < j < ops.len() ==> (#[trigger] ops[i]).path != (#[trigger] ops[j]).path
            || ops[i].method != ops[j].method
}

/// No two operations read from a document share both path and method:
/// each path holds each method at most once.
pub proof fn lemma_operations_distinct(paths: Seq<(Seq<char>, JsonModel)>)
    requires
        crate::json::unique_keys(paths),
    ensures
        distinct_operations(operations_of(paths)),
    decreases paths.len(),
{
    if paths.len() > 0 {
        let init = paths.drop_last();
        assert(crate::json::unique_keys(init)) by {
            assert forall|i: int, j: int|
                0 <= i < j < init.len() implies #[trigger] init[i].0 != #[trigger] init[j].0 by {
                assert(init[i] == paths[i] && init[j] == paths[j]);
            }
        }
        lemma_operations_distinct(init);
        lemma_operations_sound(init);
        let prev = operations_of(init);
        let last = paths.last();
        let all = operations_of(paths);
        let mops = path_operations(last.0, last.1);
        if last.1 is Object {
            lemma_method_operations_distinct(last.0, last.1, 8);
        }
        assert forall|i: int, j: int| 0 <= i < j < all.len() implies (#[trigger] all[i]).path
            != (#[trigger] all[j]).path || all[i].method != all[j].method by {
            if j < prev.len() {
                assert(all[i] == prev[i] && all[j] == prev[j]);
            } else if i < prev.len() {
                assert(all[i] == prev[i]);
                assert(all[j] == mops[j - prev.len()]);
                assert(from_method_key(prev[i], init));
                let (p, k) = choose|p: int, k: int|
                    0 <= p < init.len() && 0 <= k < 8 && (#[trigger] method_member(init[p].1, k))
                        is Some && prev[i] == method_operation(init[p].0, init[p].1, k);
                assert(init[p] == paths[p]);
                assert(paths[p].0 != paths[paths.len() - 1].0);
            } else {
                assert(all[i] == mops[i - prev.len()]);
                assert(all[j] == mops[j - prev.len()]);
            }
        }
    }
}

proof fn lemma_location_names_differ()
    ensures
        "path"@ != "query"@,
        "path"@ != "header"@,
        "path"@ != "cookie"@,
        "query"@ != "header"@,
        "query"@ != "cookie"@,
        "header"@ != "cookie"@,
{
    reveal_strlit("path");
    reveal_strlit("query");
    reveal_strlit("header");
    reveal_strlit("cookie");
    // They differ in their first letter.
    assert("path"@[0] != "query"@[0] && "path"@[0] != "header"@[0]);
    assert("path"@[0] != "cookie"@[0] && "query"@[0] != "header"@[0]);
    assert("query"@[0] != "cookie"@[0] && "header"@[0] != "cookie"@[0]);
}

/// A parameter object with a string `name` and a string `in` describes a
/// parameter exactly when `in` is `path`, `query`, `header` or `cookie`.
/// It keeps its name, goes where `in` says, is required exactly when
/// `required` is `true`, and its value is the text of its own `example`,
/// else the placeholder of its `schema` (of an empty schema without one).
pub proof fn lemma_parameter_read(p: JsonModel, name: Seq<char>, in_text: Seq<char>)
    requires
        p.get("name"@) == Some(JsonModel::Str(name)),
        p.get("in"@) == Some(JsonModel::Str(in_text)),
    ensures
        in_text == "path"@ ==> (parameter_of(p) matches Some(x) && x.location
            == ParamLocation::Path),
        in_text == "query"@ ==> (parameter_of(p) matches Some(x) && x.location
            == ParamLocation::Query),
        in_text == "header"@ ==> (parameter_of(p) matches Some(x) && x.location
            == ParamLocation::Header),
        in_text == "cookie"@ ==> (parameter_of(p) matches Some(x) && x.location
            == ParamLocation::Cookie),
        in_text != "path"@ && in_text != "query"@ && in_text != "header"@ && in_text != "cookie"@
            ==> parameter_of(p) is None,
        parameter_of(p) matches Some(x) ==> {
            &&& x.name == name
            &&& x.required == (p.get("required"@) == Some(JsonModel::Bool(true)))
            &&& x.value == match p.get("example"@) {
                Some(e) => scalar_text(e),
                None => match p.get("schema"@) {
                    Some(schema) => placeholder_text(schema),
                    None => placeholder_text(JsonModel::Object(Seq::empty())),
                },
            }
        },
{
    lemma_location_names_differ();
}

/// A parameter object without a string `name`, or without a string `in`,
/// describes no parameter.
pub proof fn lemma_parameter_needs_name_and_in(p: JsonModel)
    ensures
        !(p.get("name"@) matches Some(JsonModel::Str(_))) ==> parameter_of(p) is None,
        !(p.get("in"@) matches Some(JsonModel::Str(_))) ==> parameter_of(p) is None,
{
}

/// The parameters of a list are those of its parts, in order: reading
/// keeps the order of the list and each parameter object stands alone.
pub proof fn lemma_parameters_of_concat(ps: Seq<JsonModel>, qs: Seq<JsonModel>)
    ensures
        parameters_of(ps + qs) == parameters_of(ps) + parameters_of(qs),
    decreases qs.len(),
{
    if qs.len() == 0 {
        assert(ps + qs =~= ps);
        assert(parameters_of(ps) + parameters_of(qs) =~= parameters_of(ps));
    } else {
        lemma_parameters_of_concat(ps, qs.drop_last());
        assert((ps + qs).drop_last() =~= ps + qs.drop_last());
        assert((ps + qs).last() == qs.last());
        let tail = match parameter_of(qs.last()) {
            Some(x) => seq![x],
            None => Seq::empty(),
        };
        assert(parameters_of(ps) + parameters_of(qs) =~= parameters_of(ps) + parameters_of(
            qs.drop_last(),
        ) + tail);
    }
}

/// A list of one parameter object gives the parameter it describes, or none.
pub proof fn lemma_parameters_of_single(p: JsonModel)
    ensures
        parameters_of(seq![p]) == match parameter_of(p) {
            Some(x) => seq![x],
            None => Seq::<ParameterModel>::empty(),
        },
{
    assert(seq![p].drop_last() =~= Seq::<JsonModel>::empty());
    assert(seq![p].last() == p);
    assert(parameters_of(Seq::<JsonModel>::empty()) == Seq::<ParameterModel>::empty());
    assert(parameters_of(seq![p]) =~= match parameter_of(p) {
        Some(x) => seq![x],
        None => Seq::<ParameterModel>::empty(),
    });
}

/// How the request body of an operation is read from its
/// `requestBody.content` object: where some entry is `application/json`
/// (the first such), the body is JSON with that media type's `example`,
/// else the `value` of the first of its `examples`, else an example built
/// from its `schema`, else `null`; where none is, the body takes the
/// content type of the first entry and has no JSON body; an empty content
/// object gives no body.
pub proof fn lemma_request_body_read(
    op: JsonModel,
    rb: JsonModel,
    content: Seq<(Seq<char>, JsonModel)>,
    i: int,
)
    requires
        op.get("requestBody"@) == Some(rb),
        rb.get("content"@) == Some(JsonModel::Object(content)),
    ensures
        (0 <= i < content.len() && content[i].0 == "application/json"@ && forall|j: int|
            0 <= j < i ==> #[trigger] content[j].0 != "application/json"@) ==> ({
            let media = content[i].1;
            &&& request_body_of(op) matches Some(b)
            &&& b.content_type == "application/json"@
            &&& b.json_body == Some(
                match media.get("example"@) {
                    Some(e) => e,
                    None => match media.get("examples"@) {
                        Some(JsonModel::Object(exs)) => if exs.len() > 0 && exs[0].1.get(
                            "value"@,
                        ) is Some {
                            exs[0].1.get("value"@)->0
                        } else {
                            match media.get("schema"@) {
                                Some(schema) => example_value(schema, 0),
                                None => JsonModel::Null,
                            }
                        },
                        _ => match media.get("schema"@) {
                            Some(schema) => example_value(schema, 0),
                            None => JsonModel::Null,
                        },
                    },
                },
            )
        }),
        (forall|j: int| 0 <= j < content.len() ==> #[trigger] content[j].0 != "application/json"@)
            ==> (if content.len() == 0 {
            request_body_of(op) is None
        } else {
            request_body_of(op) == Some(
                RequestBodyModel { content_type: content[0].0, json_body: None },
            )
        }),
{
    lemma_lookup_none(content, "application/json"@);
    lemma_lookup_first(content, "application/json"@, i);
}

/// An operation without a `requestBody` has no request body.
pub proof fn lemma_no_request_body(op: JsonModel)
    requires
        op.get("requestBody"@) is None,
    ensures
        request_body_of(op) is None,
{
}

proof fn lemma_lookup_first(entries: Seq<(Seq<char>, JsonModel)>, key: Seq<char>, i: int)
    ensures
        (0 <= i < entries.len() && entries[i].0 == key && forall|j: int|
            0 <= j < i ==> #[trigger] entries[j].0 != key) ==> lookup(entries, key) == Some(
            entries[i].1,
        ),
    decreases entries.len(),
{
    if 0 <= i < entries.len() && entries[i].0 == key && forall|j: int|
        0 <= j < i ==> #[trigger] entries[j].0 != key {
        if i > 0 {
            let rest = entries.drop_first();
            assert(entries[0].0 != key);
            assert forall|j: int| 0 <= j < i - 1 implies #[trigger] rest[j].0 != key by {
                assert(rest[j] == entries[j + 1]);
            }
            assert(rest[i - 1] == entries[i]);
            lemma_lookup_first(rest, key, i - 1);
        }
    }
}

/// The place of an HTTP method in the order in which a path item's
/// methods are read: GET, POST, PUT, PATCH, DELETE, OPTIONS, HEAD, TRACE;
/// 8 for any other name.
pub open spec fn method_rank(m: Seq<char>) -> int {
    if m == "GET"@ {
        0
    } else if m == "POST"@ {
        1
    } else if m == "PUT"@ {
        2
    } else if m == "PATCH"@ {
        3
    } else if m == "DELETE"@ {
        4
    } else if m == "OPTIONS"@ {
        5
    } else if m == "HEAD"@ {
        6
    } else if m == "TRACE"@ {
        7
    } else {
        8
    }
}

proof fn lemma_method_names_differ()
    ensures
        "GET"@ != "POST"@,
        "GET"@ != "PUT"@,
        "GET"@ != "PATCH"@,
        "GET"@ != "DELETE"@,
        "GET"@ != "OPTIONS"@,
        "GET"@ != "HEAD"@,
        "GET"@ != "TRACE"@,
        "POST"@ != "PUT"@,
        "POST"@ != "PATCH"@,
        "POST"@ != "DELETE"@,
        "POST"@ != "OPTIONS"@,
        "POST"@ != "HEAD"@,
        "POST"@ != "TRACE"@,
        "PUT"@ != "PATCH"@,
        "PUT"@ != "DELETE"@,
        "PUT"@ != "OPTIONS"@,
        "PUT"@ != "HEAD"@,
        "PUT"@ != "TRACE"@,
        "PATCH"@ != "DELETE"@,
        "PATCH"@ != "OPTIONS"@,
        "PATCH"@ != "HEAD"@,
        "PATCH"@ != "TRACE"@,
        "DELETE"@ != "OPTIONS"@,
        "DELETE"@ != "HEAD"@,
        "DELETE"@ != "TRACE"@,
        "OPTIONS"@ != "HEAD"@,
        "OPTIONS"@ != "TRACE"@,
        "HEAD"@ != "TRACE"@,
{
    reveal_strlit("GET");
    reveal_strlit("POST");
    reveal_strlit("PUT");
    reveal_strlit("PATCH");
    reveal_strlit("DELETE");
    reveal_strlit("OPTIONS");
    reveal_strlit("HEAD");
    reveal_strlit("TRACE");
    assert("GET"@[0] != "POST"@[0]);
    assert("GET"@[0] != "PUT"@[0]);
    assert("GET"@[0] != "PATCH"@[0]);
    assert("GET"@[0] != "DELETE"@[0]);
    assert("GET"@[0] != "OPTIONS"@[0]);
    assert("GET"@[0] != "HEAD"@[0]);
    assert("GET"@[0] != "TRACE"@[0]);
    assert("POST"@.len() != "PUT"@.len());
    assert("POST"@.len() != "PATCH"@.len());
    assert("POST"@[0] != "DELETE"@[0]);
    assert("POST"@[0] != "OPTIONS"@[0]);
    assert("POST"@[0] != "HEAD"@[0]);
    assert("POST"@[0] != "TRACE"@[0]);
    assert("PUT"@.len() != "PATCH"@.len());
    assert("PUT"@[0] != "DELETE"@[0]);
    assert("PUT"@[0] != "OPTIONS"@[0]);
    assert("PUT"@[0] != "HEAD"@[0]);
    assert("PUT"@[0] != "TRACE"@[0]);
    assert("PATCH"@[0] != "DELETE"@[0]);
    assert("PATCH"@[0] != "OPTIONS"@[0]);
    assert("PATCH"@[0] != "HEAD"@[0]);
    assert("PATCH"@[0] != "TRACE"@[0]);
    assert("DELETE"@[0] != "OPTIONS"@[0]);
    assert("DELETE"@[0] != "HEAD"@[0]);
    assert("DELETE"@[0] != "TRACE"@[0]);
    assert("OPTIONS"@[0] != "HEAD"@[0]);
    assert("OPTIONS"@[0] != "TRACE"@[0]);
    assert("HEAD"@[0] != "TRACE"@[0]);
}

proof fn lemma_method_operations_ranked(path: Seq<char>, item: JsonModel, n: nat)
    requires
        n <= 8,
    ensures
        forall|i: int|
            0 <= i < method_operations(path, item, n).len() ==> method_rank(
                (#[trigger] method_operations(path, item, n)[i]).method,
            ) < n && method_operations(path, item, n)[i].path == path,
        forall|i: int, j: int|
            0 <= i < j < method_operations(path, item, n).len() ==> method_rank(
                (#[trigger] method_operations(path, item, n)[i]).method,
            ) < method_rank((#[trigger] method_operations(path, item, n)[j]).method),
    decreases n,
{
    lemma_method_names_differ();
    if n > 0 {
        lemma_method_operations_ranked(path, item, (n - 1) as nat);
        let prev = method_operations(path, item, (n - 1) as nat);
        let all = method_operations(path, item, n);
        assert(method_rank(http_methods()[n - 1].1) == n - 1);
        assert forall|i: int| 0 <= i < all.len() implies method_rank((#[trigger] all[i]).method) < n
            && all[i].path == path by {
            if i < prev.len() {
                assert(all[i] == prev[i]);
            }
        }
        assert forall|i: int, j: int| 0 <= i < j < all.len() implies method_rank(
            (#[trigger] all[i]).method,
        ) < method_rank((#[trigger] all[j]).method) by {
            assert(all[i] == prev[i]);
            if j < prev.len() {
                assert(all[j] == prev[j]);
            }
        }
    }
}

/// The operations of one path item are those of its HTTP method keys, each
/// read under its upper-case name, one per method, in the order GET, POST,
/// PUT, PATCH, DELETE, OPTIONS, HEAD, TRACE.
pub proof fn lemma_path_operations_in_method_order(path: Seq<char>, item: JsonModel)
    requires
        item is Object,
    ensures
        forall|i: int|
            0 <= i < path_operations(path, item).len() ==> (#[trigger] path_operations(
                path,
                item,
            )[i]).path == path && method_rank(path_operations(path, item)[i].method) < 8,
        forall|i: int, j: int|
            0 <= i < j < path_operations(path, item).len() ==> method_rank(
                (#[trigger] path_operations(path, item)[i]).method,
            ) < method_rank((#[trigger] path_operations(path, item)[j]).method),
        item.get("get"@) matches Some(o) ==> path_operations(path, item).contains(
            operation_of(path, "GET"@, o),
        ),
        item.get("post"@) matches Some(o) ==> path_operations(path, item).contains(
            operation_of(path, "POST"@, o),
        ),
        item.get("put"@) matches Some(o) ==> path_operations(path, item).contains(
            operation_of(path, "PUT"@, o),
        ),
        item.get("patch"@) matches Some(o) ==> path_operations(path, item).contains(
            operation_of(path, "PATCH"@, o),
        ),
        item.get("delete"@) matches Some(o) ==> path_operations(path, item).contains(
            operation_of(path, "DELETE"@, o),
        ),
        item.get("options"@) matches Some(o) ==> path_operations(path, item).contains(
            operation_of(path, "OPTIONS"@, o),
        ),
        item.get("head"@) matches Some(o) ==> path_operations(path, item).contains(
            operation_of(path, "HEAD"@, o),
        ),
        item.get("trace"@) matches Some(o) ==> path_operations(path, item).contains(
            operation_of(path, "TRACE"@, o),
        ),
{
    lemma_method_operations_ranked(path, item, 8);
    assert(method_member(item, 0) == item.get("get"@));
    assert(method_member(item, 1) == item.get("post"@));
    assert(method_member(item, 2) == item.get("put"@));
    assert(method_member(item, 3) == item.get("patch"@));
    assert(method_member(item, 4) == item.get("delete"@));
    assert(method_member(item, 5) == item.get("options"@));
    assert(method_member(item, 6) == item.get("head"@));
    assert(method_member(item, 7) == item.get("trace"@));
    assert forall|k: int| 0 <= k < 8 && (#[trigger] method_member(item, k)) is Some implies path_operations(
        path,
        item,
    ).contains(method_operation(path, item, k)) by {
        lemma_method_operations_complete(path, item, 8, k);
    }
}

/// The operations of a `paths` object are those of its parts, in order:
/// paths are read in the order the object holds them, each on its own.
pub proof fn lemma_operations_of_concat(
    ps: Seq<(Seq<char>, JsonModel)>,
    qs: Seq<(Seq<char>, JsonModel)>,
)
    ensures
        operations_of(ps + qs) == operations_of(ps) + operations_of(qs),
    decreases qs.len(),
{
    if qs.len() == 0 {
        assert(ps + qs =~= ps);
        assert(operations_of(ps) + operations_of(qs) =~= operations_of(ps));
    } else {
        lemma_operations_of_concat(ps, qs.drop_last());
        assert((ps + qs).drop_last() =~= ps + qs.drop_last());
        assert((ps + qs).last() == qs.last());
        assert(operations_of(ps) + operations_of(qs) =~= operations_of(ps) + operations_of(
            qs.drop_last(),
        ) + path_operations(qs.last().0, qs.last().1));
    }
}

/// The base URL read from a document is the `url` string of the first
/// entry of its `servers` array, whatever entries follow it: none where
/// that entry has no string `url`, and none where there are no servers.
pub proof fn lemma_base_url_is_first_server(root: JsonModel)
    requires
        root.get("paths"@) matches Some(JsonModel::Object(_)),
    ensures
        document_spec(root) is Ok,
        root.get("servers"@) matches Some(JsonModel::Array(servers)) ==> (servers.len() > 0
            ==> document_spec(root)->Ok_0.base_url == match servers[0].get("url"@) {
            Some(JsonModel::Str(url)) => Some(url),
            _ => None,
        }),
        root.get("servers"@) matches Some(JsonModel::Array(servers)) ==> (servers.len() == 0
            ==> document_spec(root)->Ok_0.base_url is None),
        !(root.get("servers"@) matches Some(JsonModel::Array(_)))
            ==> document_spec(root)->Ok_0.base_url is None,
{
}

/// A YAML document reads as the same spec as the JSON document with the
/// same content: what is read depends on the document, not its syntax.
pub proof fn lemma_yaml_reads_like_json(json_text: Seq<char>, yaml_text: Seq<char>)
    requires
        json_document(json_text) is Some,
        json_document(yaml_text) is None,
        yaml_document(yaml_text) == Ok::<JsonModel, Seq<char>>(json_document(json_text)->0),
    ensures
        text_spec(yaml_text) == text_spec(json_text),
{
}

/// A request body carries a JSON body exactly when its content type is
/// `application/json`; any other content type gets none.
pub proof fn lemma_json_body_iff_json_content(op: JsonModel)
    ensures
        request_body_of(op) matches Some(b) ==> (b.json_body is Some <==> b.content_type
            == "application/json"@),
{
    if let Some(rb) = op.get("requestBody"@) {
        if let Some(JsonModel::Object(content)) = rb.get("content"@) {
            lemma_lookup_none(content, "application/json"@);
            if lookup(content, "application/json"@) is None && content.len() > 0 {
                assert(content[0].0 != "application/json"@);
            }
        }
    }
}

} // verus!
