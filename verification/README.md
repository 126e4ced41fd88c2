# docx_extractor

Turns a `.docx` file into a structured document: paragraphs, headings,
list items, tables, footnotes and endnotes, headers and footers, comments,
tracked insertions and deletions, core metadata and base64-encoded images.

The library under `src/` is written in Verus: every function carries a
contract, and the parser's properties are proved as lemmas.

- `text`, `assoc`, `path` — text helpers (trimming, number parsing,
  UTF-8), key/value lists, file names and extensions.
- `xml` — XML events as read with `quick_xml`.
- `rels`, `meta` — the relationships part and the core properties.
- `body` — the body parser, a state machine over XML events with its
  transitions written as spec functions.
- `parts` — splitting notes and comments parts into entries.
- `archive`, `images` — the ZIP package (an entry is read when it is
  asked for) and its images.
- `extract` — the whole extraction, specified by `extract_model`.
- `laws` — what holds of every extraction (well-formed sections, anchored
  revisions, anchors within their section's trimmed text, sorted comments,
  alike containers, maps by key, the image option).

`app/` holds the command-line program: it reads the file, calls
`extract`, and prints the document as JSON.

```bash
docx-extractor path/to/file.docx [--pretty] [--output out.json] [--no-images] [--max-image-bytes N]
```
