# ttfkit

A TrueType font toolkit whose core is verified with Verus: it reads the tables of
a font file (table directory, `head`, `hhea`, `maxp`, `hmtx`, `loca`, `glyf`,
`cmap`, `kern`, `GSUB`), turns glyph outlines into contours of edges, maps text to
glyphs, and packs rendered glyphs into a texture atlas.

## Layout

- `src/` — the verified library.
  - `cursor.rs`, `error.rs`, `tags.rs` — big-endian reading with exact error
    contracts, the error type, OpenType tags.
  - `table/` — one module per table; each parser states, over the bytes, when it
    fails, with which error, and what it returns.
  - `table/common/`, `table/gsub/` — the layout structures (coverage, class
    definitions, scripts, language systems, features, lookups) and the glyph
    substitution subtables.
  - `math/` — integer plane vectors, edges, contours (winding, reversal) and
    shapes.
  - `atlas/` — shelf and maximal-rectangles allocators (placed rectangles never
    overlap and stay inside the atlas; the free space is exactly what was not
    placed), pixel buffers and the atlas that copies images into place (images
    under different keys never share a cell).
  - `shaper.rs` — text to glyph ids through the character map.
- `tests/` — tests of the library on concrete font fragments and shapes.
- `app/` — the program around the library: file reading, the floating-point
  geometry used for distance-field rendering, images of the `image` crate, and
  bit-flag views of the library's flag types.
