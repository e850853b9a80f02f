# printing_press_rs

The core of the CLI printing press, written in Verus: given an OpenAPI
document it derives the commands, flags and authentication of a printed CLI,
and given a target (a local file, a URL or a catalog entry) it decides what
the target is and how it is named.

Layout:

- `src/` — the verified library.
  - `text.rs` — character classes and character-sequence helpers.
  - `names.rs` — words of an identifier, kebab-case and upper-snake names.
  - `slug.rs` — slugs and display names, with their laws (well-formed slugs,
    idempotence, display names turning back into slugs).
  - `ordered_map.rs` — a map kept in increasing key order, as the document's
    maps are walked.
  - `spec.rs` — the document model and the specification of what is derived
    from it; laws of parameter merging and of the operation list.
  - `operations.rs` — the executable derivations: operations, fields, body
    fields, authentication, title and base URL.
  - `catalog.rs` — resolving targets; URLs are parsed by the `url` crate.
  - `pipeline.rs` — workspace paths, spec format and spec acceptance.
  - `verify.rs` — checking a generated CLI's manifest against its spec.
  - `cli.rs` — the command surface.
- `app/` — the program around it: argument parsing (clap), logging
  (tracing), files and network (tokio, reqwest), document parsing (serde) and
  `cargo check`.
- `tests/` — tests of the library.
