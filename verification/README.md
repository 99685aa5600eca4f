# serval-cli

Spec-anchored API verification: run Gherkin `.feature` files against an
HTTP target and report pass/fail. The logic is a Verus-verified library;
a thin binary around it does the I/O.

## Layout

- `src/` — the verified library (`serval_cli`).
  - `gherkin`, `spec`, `frontmatter` — reading `.feature` files: the
    line-oriented Gherkin reader, the relaxed multi-`Feature:` loader and
    the `---` frontmatter block.
  - `patterns` — the step-pattern engine: built-in and user patterns,
    the actions they fire, `<key>` and `{{group}}` / `{{$variable}}`
    templates (nested ones resolve innermost first), value sources.
  - `runner`, `execution` — one example row as a state machine: it asks
    the caller to send requests (`Command::Send`), takes the replies
    back, and ends with an outcome validated against the assertions the
    steps set.
  - `report`, `config`, `commands::*` — run reports and their names,
    history and diffs, environments, and what each subcommand prints
    and exits with.
  - `json`, `text`, `textops` — JSON values and pointers, string helpers.
  - `laws` — properties relating several operations, proved.
- `app/` — the `serval` binary: argument parsing, files, TOML/YAML/JSON
  (de)serialisation, HTTP with `reqwest` on a `tokio` runtime.
- `tests/` — integration tests of the library.

Parsing JSON text, matching regular expressions and formatting times
are done by `serde_json`, `regex` and `time`; the library states what
it relies on from each call next to the call.

## Exit codes

| Code | Meaning |
|------|---------|
| `0` | Operation completed; assertions passed. |
| `1` | Operation completed; a test or spec assertion failed. |
| `2` | System error (network / config / IO). |
| `3` | Bad input (invalid URL, malformed Gherkin, missing argument). |
