# gws helpers

Helper commands for Google Workspace APIs (Sheets, Docs, Drive, Gmail
drafts), split into a verified library and thin plumbing around it.

- `src/` is the library, verified with Verus. It holds everything the
  helpers decide: A1 notation (`a1`), colour parsing and Sheets request
  bodies and replies (`sheets`), reading text, paragraphs and tables out of a
  Docs document and the requests that edit them (`docs`), upload names,
  metadata and download paths (`drive`), draft bodies and messages (`gmail`),
  scope lookup in a discovery document (`discovery`), and the JSON model they
  share (`json`). Each public function states in its contract what it
  returns; the public proof functions state laws across functions (column
  letters round-trip, a sheet prefix or a `#` changes nothing, a written cell
  address reads back, table lookups agree).
- `app/` defines the command-line arguments (clap), makes the HTTP calls
  (reqwest, tokio), reads and writes files, converts between `serde_json`
  values and the library's JSON values, and computes the floating-point
  colour channels that Sheets expects.
- `tests/` runs the library on concrete inputs.

Trusted items (calls Verus takes on their contracts) are the `base64`
encoder and decoder, `serde_json::from_str` for `--json-values`, and a few
std functions (`String::from_utf8_lossy`, `Path::file_name`, collecting
characters into a `String`); each is marked `#[verifier::external_body]` with
a doc comment saying what is assumed.
