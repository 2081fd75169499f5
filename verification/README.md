# frontmatter-gen

A library for front matter in YAML, TOML and JSON — recognising and
extracting it from content, checking content and parsed front matter
against limits — and the command-line tool and static site generator
built on it. The library is written in Verus: each function states its
behaviour in `requires`/`ensures` and is proved to meet it.

## Layout

- `src/` — the verified library.
  - `extractor.rs` — finding raw front matter (`---`, `+++`, balanced `{}`)
    and detecting its format; the round-trip laws for framed front matter.
  - `lib.rs` — content validation (path traversal and null bytes outside
    fenced code, size limit), parse options, reading numbers, and
    `extract`, which extracts and parses front matter in one call.
  - `types.rs` — `Format`, `Value`, and `Frontmatter`, a map kept sorted by
    key bytes; escaping; size and depth measures.
  - `document.rs` — documents as the YAML, TOML and JSON parsers read
    them, and the library values they become.
  - `parser.rs` — parsing front matter: input per format, the parse
    itself, key and depth limits, output formats, size estimates.
  - `error.rs` — the error types, their categories and messages.
  - `config.rs` — site configuration, its builder and its rules.
  - `utils.rs` — path safety rules.
  - `cli.rs`, `ssg.rs`, `engine.rs`, `launch.rs` — the decisions of the
    command-line tool, the site generator, its engine and start-up.
  - `text.rs` — byte and character helpers: search, trimming, decimals.
- `tests/` — tests of the library.
- `app/` — the program: argument parsing, the environment, files, serde
  writing, templates and Markdown, logging.
