# coretext_shape

Decisions around text shaping with CoreText, verified with Verus.

A piece of text is shaped in two steps, with CoreText between them.

1. `shape::plan_fonts` says which font the line is made with, which families
   CoreText shall prefer when the font lacks a character, and which base writing
   direction the line has.
2. `shape::shape_item_coretext` takes the glyph runs of the line and gives the
   runs of the layout: for each its text, its place in the whole text, its
   glyphs and the identity of its font.

| module      | content                                                          |
| ----------- | ---------------------------------------------------------------- |
| `text`      | characters, UTF-8 bytes and UTF-16 code units of a text          |
| `families`  | names of font families, resolution of a family stack             |
| `font`      | font requests, cascade list, identity of a font                  |
| `direction` | base writing direction                                           |
| `runs`      | the part of the text that a glyph run covers, and its glyphs     |
| `shape`     | planning and cutting of one item                                 |

Positions, sizes and weights are of a number type `N` that the library only
passes on. `app/` is the macOS side: it calls CoreText, with `f32` for `N`, and
computes advances from the positions.
