# akuna_core

Knowledge tooling core, verified with Verus: retrieval chunking, markup text
extraction, search previews, the record index's graph encoding, relationship
ordering and manifest checks, and the option and error shapes of the
model-backed capabilities (embedding, layout detection, file-type detection).

Layout:

- `src/` — the verified library. `chunking/` splits prose by blank lines and
  source code by the named leaves of its `tree_sitter` syntax tree, and packs
  segments into chunks that fit a character limit. `extraction/` plans an
  extraction, routes a detected content type to its extractor, reads markup
  through `quick_xml` into visible text, and builds text parts and audit
  steps, including the content built from what the PDF, Office and EPUB
  engines read. `index/` holds the fusion of ranked result lists into
  candidates, relationship expansion, search previews, graph tokens and
  labels, relationships, the manifest, request checks and the index's
  errors. `metadata.rs` holds record metadata and its filters, `ml.rs` the
  model-independent batching and token layout, and `knowledge.rs` parses
  search request parameters.
- `tests/` — tests of the library's behaviour on concrete inputs.
- `app/` — a small command-line program: `extract` and `chunk`.

File-type detection, embeddings, layout detection, OCR, the PDF, Office and
EPUB engines and the index storage run ML models and document engines that
this crate does not link; their options, errors and the decisions around
them are part of the library.

Code segmentation bundles grammars for the languages that
`chunking::code::CodeLanguage` lists; Vue single-file components (`.vue`)
have no bundled grammar, so code segmentation does not apply to them.
