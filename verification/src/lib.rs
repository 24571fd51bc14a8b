//! Generates ready-to-run `curl` commands for the operations of an
//! OpenAPI 3.x document, with example values filled in for parameters
//! and JSON request bodies.

pub mod text;
pub mod json;
pub mod example;
pub mod openapi;
pub mod curl;

pub use curl::{percent_encode, render_curl, render_listing, resolve_base_url, shell_quote};
pub use example::{build_json_example, placeholder_for_schema, scalar_to_string};
pub use json::Json;
pub use openapi::{
    parse_spec, parse_spec_document, Operation, ParamLocation, Parameter, ParsedSpec, RequestBody,
    SpecError,
};
