# noti-lsp

A language server for the `noti` layout language: hover, diagnostics,
completion, go to definition, rename and inlay hints for layout documents.

- `src/` is the verified library. `parser.rs` states the grammar of the
  language and reads documents; `document.rs` keeps a document with its line
  table; `schema.rs` lists the built-in types; `features/` holds one module per
  editor feature. Each public function's contract states its result exactly,
  over spec functions beside it; the laws that relate several functions are
  the `law_*` proof functions.
- `app/` is the server itself: the protocol plumbing over stdin and stdout,
  built on `tower-lsp`, which converts between the library's values and the
  protocol's.
- `tests/` runs the library on concrete documents.

The one trusted item is `uri_parses` in `features/rename.rs`, which asks the
`url` crate whether a text is a URL.
