# csharp_rust_migrator

A C# → Rust migration assistant whose logic is verified with Verus. A C#
file is parsed with tree-sitter's C# grammar; each type declaration (and each
free-standing method) becomes one translation unit; the units are translated
one at a time by a language model, or by a built-in mock translator when no
`ANTHROPIC_API_KEY` is configured, with the signatures of earlier
translations as context; when cargo is installed the assembled crate is
checked with `cargo check`, and the errors of a failed check are fed back,
with each unit's current Rust, for up to three repair rounds.

## Layout

- `src/` — the verified library.
  - `text.rs`: whitespace trimming, line splitting, searching, replacing and
    joining, stated over `Seq<char>`.
  - `extractor.rs`: unit extraction from a pre-order listing of the syntax
    tree, and the stable sorts.
  - `syntax.rs`: the tree-sitter calls (a parser holding the C# grammar, the
    tree of a source and its nodes).
  - `converter.rs`: translation order, signature harvesting, module assembly.
  - `llm.rs`: the prompt, the mock translator, the clean-up of model replies,
    the API-key rules.
  - `pipeline.rs`: the pipeline as a state machine (`Migration::start`,
    `Migration::advance`) and its laws.
  - `cargo_project.rs`: the checked project's files and the reading of
    `cargo check`'s outcome.
  - `web.rs`: HTML escaping, the result page, the table of finished jobs.
- `app/` — the program around it: command line, web server (axum), HTTP calls
  to the Anthropic API (ureq), the file system and `cargo`.
- `tests/` — tests of the library.

The live translator asks the model named by `ANTHROPIC_MODEL`; the request
the library builds carries it.
