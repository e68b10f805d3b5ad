# dolfin-lsp-core

Language-server logic for the Dolfin ontology language, verified with Verus.

`src/` is the library. It holds the workspace state (`world.rs`, modelled in
`workspace.rs`), the language features (hover, completion, semantic tokens, definitions,
references, rename, document symbols, quick fixes, code lenses, diagnostics) and the
dispatcher that routes messages to them (`dispatch.rs`, messages in `protocol.rs`). Each
function states what it returns; the public proof functions named `law_*` state what holds
of several of them together.

The library calls the Dolfin toolchain (`rowl`, `dolfin-analysis`, `dolfin-lint`,
`dolfin-diagnostic`), `ropey` and `lsp-types` through small wrappers whose contracts are
trusted. They are marked `external_body` and stand in `ast.rs`, `checks.rs`, `comments.rs`,
`index.rs`, `lexer.rs`, `namespace.rs`, `parsing.rs`, `paths.rs`, `problem.rs`, `rope.rs`,
`uri.rs` and `words.rs`.

The lexer of the toolchain panics on some layouts, such as a text that ends in a line which
only opens an indentation. `layout.rs` states which layouts it can follow. Highlighting
requires that all through. A parser reads no further than its first error, so the functions
that take texts in require that it stops before such a layout, at a piece that cannot be
read or at an error of syntax (`parsing.rs`). `World::can_open`,
`LspState::try_notification`, `LspState::try_request` and their like test for it.

`app/` is ordinary Rust around it: JSON in and out, reading files, and a workspace behind a
lock. `tests/` runs the library on concrete documents.

## What is kept at all times

- For every open document that can be parsed, and for every background file that is not
  open, the symbol index holds exactly the symbols of its syntax tree. It holds none of an
  open document that cannot be parsed. It may hold those of a file that was indexed once
  and cannot be parsed any more after it changed on disk.
- A name is known exactly if some indexed file declares it, and every open document that
  can be parsed has been analysed against the same index.
- Where only open documents are changed, no document is in the background too, and no known
  file occurs twice.
- The text in the editor counts: a document that is opened takes the place of its
  background file, and files that are found or provided later do not take its place. When
  it is closed, it goes back to the background if it has a namespace and can be parsed, and
  is forgotten otherwise. Manifests never go to the background.
