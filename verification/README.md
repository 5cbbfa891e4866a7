# evo

The logic of evo, a PDF editor that is also a small server: the markup tools
and their undo history, the render queue and the texture cache, the language
model dialects, the layout of generated documents, and everything `evo serve`
decides -- who may come in, what a request means and what is answered.

## Layout

- `src/` is the library. Every item of it is verified with Verus.
  - `doc/` annotations, the store that holds them, and the undo history
  - `tools/` the pointer gestures, selection, snapping and freehand strokes
  - `render/` scale buckets, request coalescing, the texture cache, the choice
    of engine and the PDFium download
  - `script/` model requests and replies, what scripts are told, page layout
  - `serve/` arguments, sign-in, sessions, documents, markup, chat and tools
  - `text.rs`, `json.rs`, `digest.rs`, `metrics.rs` what the rest is built on
- `tests/` runs the library against the real crates it calls.
- `app/` is the program: files, sockets, the Lua VM, and reading and drawing PDF
  files, behind a guard, since damaged ones can make a reader panic.

## Conventions

Lengths, font sizes and scales are whole thousandths: of a point, or of a pixel
per point. A type's view (`@`) is its mathematical value, and each operation is
stated as a function on views. Proof functions whose names start with `law_`
state what holds of the library as a whole.

Calls into other crates stand behind small functions marked
`#[verifier::external_body]`, each with the claim it makes of the call.
