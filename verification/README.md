# cross_compile_checker

Checks how well a Rust project's dependencies suit each of 53 known target
triples, suggests CI targets, and renders compatibility matrices.

The library under `src/` is verified with Verus:

- `target_db` — the built-in target database: lookup, filtering, the popular
  targets, and target descriptions.
- `compat` — the scoring rules (wasm, bare metal, pointer width, byte order,
  platform crates, Windows, Android) and the risk levels they give
  (`Safe` for 0, `Warning` for 1–3, `Danger` from 4); the text and JSON
  reports.
- `suggest` — CI suggestions: non-`Danger` targets ranked stably by risk and
  popularity, chosen with at most two per OS first, then filled up.
- `report` — the compatibility matrix and its Markdown, box-drawn and JSON
  renderings.
- `json` — JSON documents of the reports, printed through `serde_json`.
- `cross_build` — the targets to run `cargo check` for, run results and their
  summary.
- `text` and `text_table` — string helpers, and the calls into `comfy-table`.

`app/` is the command-line program: argument parsing, reading `Cargo.toml`
(parsed with `toml`), running `cargo check`, printing.
