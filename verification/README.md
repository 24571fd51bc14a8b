# openapi2curl

Reads an OpenAPI 3.x document (JSON or YAML) and prints a ready-to-run
`curl` command for every operation, with example values filled in for
path, query and header parameters and for JSON request bodies.

Layout:

- `src/` — the verified library.
  - `json.rs`: the JSON document model, its compact text, and the calls
    into serde_json / serde_yaml that read a document.
  - `example.rs`: example values and placeholders resolved from schemas.
  - `openapi.rs`: reading operations, parameters and request bodies.
  - `curl.rs`: shell quoting, percent-encoding, URLs and the commands.
  - `text.rs`: character-level string helpers.
- `app/main.rs` — the command line: arguments, reading the file, printing.
- `tests/` — tests of the library.

Usage:

```bash
openapi2curl spec.json
openapi2curl spec.yaml --base-url https://staging.example.com
```
