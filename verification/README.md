# srng

A verified library for SRNG, a small declarative scene language, and for
importing SVG into it. The library is written in Verus: each public function
states in its contract what it returns, and the laws of the library are
proof functions checked by Verus.

## Layout

- `src/` — the verified library.
  - `lexer`, `parser`, `ast`, `ir`, `formatter`: SRNG source to tokens, the
    document tree, SRNG-IR JSON, and the canonical formatting.
  - `svg_import`, `svg_refs`, `svg_native`, `svg_v4`, `svg`, `svg_use`,
    `svg_resource`, `svg_complete`, `svg_filter_v06`, `svg_integrated`: the
    SVG importer and its promotion passes, from provenance properties to
    native SRNG semantics.
  - `resolve`: the runtime's decisions on an IR document that need no
    geometry (references, targets, resource children, relation activity).
  - `filter_graph`: the native filter-graph text.
  - `image`, `resources`, `font`, `font_face`, `length`, `xml`, `props`,
    `text`, `srctext`, `number`, `model`, `scene`, `studio`: shared pieces
    and the calls into `roxmltree`, `base64`, `image`, `resvg` and
    `ttf-parser`, each behind a wrapper whose contract states what the
    outside crate does.
- `tests/` — tests of the library on concrete values.
- `app/` — the command-line tools (`srngc`, `srng-svg`, `srngfmt`) and the
  parts that compute in floating point or read files.
