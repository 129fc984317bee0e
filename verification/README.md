# kukufi

Renders Arabic text as Kufi-style block art, with the shaping and layout
proved correct in Verus.

- `src/` is the verified library:
  - `models.rs`: glyphs, tokens, positions, and the two lookup tables
    (`GlyphTable`, glyph name → glyph; `UnicodeMap`, character → glyph name),
    each with a map view and a type invariant that keys are distinct.
  - `shaper.rs`: loading a glyph file, normalization, tokenizing
    (with the lam-alif ligature), and the choice of positional forms, with
    laws on how neighbouring forms join.
  - `renderer.rs`: parsing glyph art, laying glyphs out right to left,
    framing, and ANSI colouring.
  - `tui.rs`: one line of input to output lines, `Font` (a table with the
    character map built from it, which renders with no precondition), and the key handling and
    preview decisions of the live preview.
  - `validate.rs`: the checks of the `validate` command; `listing.rs`: the
    lines of the `list` and `show` commands.
  - `order.rs`, `text.rs`, `assoc.rs`: ordering of strings, character-level
    string helpers, and the sequence-of-pairs model behind the tables.
- `app/` is the program: command-line parsing (clap), reading the glyph
  file, the terminal (crossterm), and printing.
- `tests/` runs the library on a small hand-made font.

Loading is verified from the file's text: the TOML parse is the `toml`
crate's, reached through the trusted items of `src/toml_doc.rs` (the parse,
and the reading of one level of a parsed value), whose results the name
`toml_parsed` describes; which values make a glyph is the library's own,
verified code.

The program reads `assets/glyphs.toml` from the working directory or from
beside the executable.
