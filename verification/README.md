# solcore_lsp

The core of a language server for Solcore, verified with Verus.

- `src/` is the library. It holds the documents of a workspace and answers the requests of an
  editor: positions, completion, hover, navigation, rename, highlights, symbols, hints, tokens,
  folding, formatting, diagnostics and code actions. Each function states in its contract what it
  returns; proof functions whose names begin with `law_` state what holds across functions.
- `tests/` runs the library on concrete documents.
- `app/` is the server around it: the protocol types, the transport over standard input and output
  or over messages of a worker, and the conversion of what the Solcore compiler knows of a module
  into the plain values of `src/hir.rs`.

The library takes offsets and positions from the `line-index` crate, addresses from `url` as
`lsp-types` hands it on, percent decoding from `percent-encoding` and the shape of a message from
`serde_json`. The functions that call them say what is taken for granted of each.
