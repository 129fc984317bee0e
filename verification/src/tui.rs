use vstd::prelude::*;
use crate::text::{is_blank, pop_char, push_char, spec_is_whitespace};
use crate::models::{GlyphTable, GlyphView, Position, TokenView, UnicodeMap};
use crate::renderer::{frame_output, lemma_row_spacing, render, spec_frame, spec_render, token_blocks};
use crate::text::spec_repeat;
use crate::shaper::{
    build_unicode_map, lemma_tokens_known, names_known, normalize_seq, determine_positions, glyphs_known, position_at,
    spec_tokenize, token_views, tokenize,
};

verus! {

/// The positional forms of all tokens.
pub open spec fn positions_of(tokens: Seq<TokenView>, glyphs: Map<Seq<char>, GlyphView>) -> Seq<Position> {
    Seq::new(tokens.len(), |i: int| position_at(tokens, glyphs, i))
}

/// The output lines for one line of input: nothing where the input gives no
/// tokens, else the rendered art, framed where asked.
pub open spec fn spec_render_line(
    input: Seq<char>,
    umap: Map<char, Seq<char>>,
    glyphs: Map<Seq<char>, GlyphView>,
    height: nat,
    frame: bool,
    spacing: nat,
) -> Seq<Seq<char>> {
    let tokens = spec_tokenize(input, umap, glyphs);
    if tokens.len() == 0 {
        Seq::empty()
    } else {
        let out = spec_render(tokens, positions_of(tokens, glyphs), glyphs, height, spacing);
        if frame {
            spec_frame(out)
        } else {
            out
        }
    }
}

/// Render one line of Arabic text.
pub fn render_line(
    input: &str,
    unicode_map: &UnicodeMap,
    glyphs: &GlyphTable,
    height: usize,
    frame: bool,
    spacing: usize,
) -> (r: Vec<String>)
    requires
        glyphs_known(spec_tokenize(input@, unicode_map@, glyphs@), glyphs@),
    ensures
        r@.map_values(|l: String| l@) == spec_render_line(input@, unicode_map@, glyphs@, height as nat, frame, spacing as nat),
        spec_tokenize(input@, unicode_map@, glyphs@).len() == 0 ==> r.len() == 0,
        spec_tokenize(input@, unicode_map@, glyphs@).len() > 0 ==> r.len() == (if !frame { height as int } else if height == 0 { 3 } else { height + 2 }),
{
    let tokens = tokenize(input, unicode_map, glyphs);
    if tokens.len() == 0 {
        let r: Vec<String> = Vec::new();
        assert(r@.map_values(|l: String| l@) =~= Seq::<Seq<char>>::empty());
        return r;
    }
    let ghost tv = token_views(tokens@);
    let positions = determine_positions(tokens.as_slice(), glyphs);
    assert(positions@ =~= positions_of(tv, glyphs@));
    let output = render(tokens.as_slice(), positions.as_slice(), glyphs, height, spacing);
    if frame {
        let framed = frame_output(output.as_slice());
        assert(output@.map_values(|l: String| l@).len() == height);
        framed
    } else {
        output
    }
}

/// The key of a key press, as far as the live preview tells keys apart.
pub enum KeyInput {
    Char(char),
    Backspace,
    Enter,
    Esc,
    Other,
}

/// A key press: the key and whether Control was held.
pub struct KeyPress {
    pub key: KeyInput,
    pub control: bool,
}

/// Whether a key press ends the live preview: Escape, or Control+C.
pub open spec fn is_quit(k: KeyPress) -> bool {
    k.key is Esc || (k.key == KeyInput::Char('c') && k.control)
}

/// The input line after a key press that does not end the preview: a
/// character is appended, Backspace removes the last character, Enter
/// clears the line, any other key leaves it.
pub open spec fn edited(buf: Seq<char>, k: KeyPress) -> Seq<char> {
    match k.key {
        KeyInput::Char(c) => buf.push(c),
        KeyInput::Backspace => if buf.len() == 0 { buf } else { buf.drop_last() },
        KeyInput::Enter => Seq::empty(),
        _ => buf,
    }
}

/// Apply one key press of the live preview to the input line. Returns
/// `false` when the press ends the preview, leaving the line as it was;
/// otherwise the line is edited and the preview is to be drawn again.
pub fn apply_key(input_buf: &mut String, press: KeyPress) -> (go_on: bool)
    ensures
        go_on == !is_quit(press),
        go_on ==> final(input_buf)@ == edited(old(input_buf)@, press),
        !go_on ==> final(input_buf)@ == old(input_buf)@,
{
    let quit = match press.key {
        KeyInput::Esc => true,
        KeyInput::Char(c) => c == 'c' && press.control,
        _ => false,
    };
    if quit {
        return false;
    }
    match press.key {
        KeyInput::Char(c) => {
            push_char(input_buf, c);
        },
        KeyInput::Backspace => {
            pop_char(input_buf);
        },
        KeyInput::Enter => {
            *input_buf = String::new();
        },
        _ => {},
    }
    true
}

/// What the live preview shows for the input line: nothing (the prompt to
/// type) when the line is blank, else the rendered line.
pub fn preview(
    input: &str,
    unicode_map: &UnicodeMap,
    glyphs: &GlyphTable,
    height: usize,
    frame: bool,
    spacing: usize,
) -> (r: Option<Vec<String>>)
    requires
        (exists|i: int| 0 <= i < input@.len() && !#[trigger] spec_is_whitespace(input@[i]))
            ==> glyphs_known(spec_tokenize(input@, unicode_map@, glyphs@), glyphs@),
    ensures
        match r {
            None => forall|i: int| 0 <= i < input@.len() ==> #[trigger] spec_is_whitespace(input@[i]),
            Some(lines) => (exists|i: int| 0 <= i < input@.len() && !#[trigger] spec_is_whitespace(input@[i]))
                && lines@.map_values(|l: String| l@) == spec_render_line(input@, unicode_map@, glyphs@, height as nat, frame, spacing as nat),
        },
{
    if is_blank(input) {
        None
    } else {
        Some(render_line(input, unicode_map, glyphs, height, frame, spacing))
    }
}

/// A glyph table together with the character map built from it, so that
/// every name the map gives is a glyph of the table.
pub struct Font {
    glyphs: GlyphTable,
    unicode_map: UnicodeMap,
}

impl Font {
    #[verifier::type_invariant]
    closed spec fn map_names_glyphs(&self) -> bool {
        names_known(self.unicode_map@, self.glyphs@)
    }

    /// The glyphs of the font.
    pub closed spec fn glyphs_view(&self) -> Map<Seq<char>, GlyphView> {
        self.glyphs@
    }

    /// The character map of the font.
    pub closed spec fn map_view(&self) -> Map<char, Seq<char>> {
        self.unicode_map@
    }

    /// The font of a glyph table, with its character map built by `build_unicode_map`.
    pub fn new(glyphs: GlyphTable) -> (f: Font)
        ensures
            f.glyphs_view() == glyphs@,
            forall|c: char| #[trigger] f.map_view().contains_key(c) <==> exists|n: Seq<char>|
                glyphs@.contains_key(n) && #[trigger] glyphs@[n].unicode == seq![c],
            forall|c: char| #[trigger] f.map_view().contains_key(c) ==> glyphs@.contains_key(f.map_view()[c])
                && glyphs@[f.map_view()[c]].unicode == seq![c],
    {
        let unicode_map = build_unicode_map(&glyphs);
        Font { glyphs, unicode_map }
    }

    /// The glyph table.
    pub fn glyphs(&self) -> (r: &GlyphTable)
        ensures
            r@ == self.glyphs_view(),
    {
        &self.glyphs
    }

    /// The character map.
    pub fn unicode_map(&self) -> (r: &UnicodeMap)
        ensures
            r@ == self.map_view(),
    {
        &self.unicode_map
    }

    /// Render one line of Arabic text in this font.
    pub fn render_line(&self, input: &str, height: usize, frame: bool, spacing: usize) -> (r: Vec<String>)
        ensures
            r@.map_values(|l: String| l@) == spec_render_line(input@, self.map_view(), self.glyphs_view(), height as nat, frame, spacing as nat),
    {
        proof {
            use_type_invariant(self);
            lemma_tokens_known(normalize_seq(input@), 0, self.unicode_map@, self.glyphs@);
        }
        render_line(input, &self.unicode_map, &self.glyphs, height, frame, spacing)
    }

    /// What the live preview shows in this font for the input line: nothing
    /// when the line is blank, else the rendered line.
    pub fn preview(&self, input: &str, height: usize, frame: bool, spacing: usize) -> (r: Option<Vec<String>>)
        ensures
            match r {
                None => forall|i: int| 0 <= i < input@.len() ==> #[trigger] spec_is_whitespace(input@[i]),
                Some(lines) => (exists|i: int| 0 <= i < input@.len() && !#[trigger] spec_is_whitespace(input@[i]))
                    && lines@.map_values(|l: String| l@) == spec_render_line(input@, self.map_view(), self.glyphs_view(), height as nat, frame, spacing as nat),
            },
    {
        proof {
            use_type_invariant(self);
            lemma_tokens_known(normalize_seq(input@), 0, self.unicode_map@, self.glyphs@);
        }
        preview(input, &self.unicode_map, &self.glyphs, height, frame, spacing)
    }
}

/// Spacing widens the rendered line: with `n` tokens and spacing `s`, each
/// unframed output line is `(n - 1) * s` characters wider than without spacing.
pub proof fn lemma_spacing_widens(
    input: Seq<char>,
    umap: Map<char, Seq<char>>,
    glyphs: Map<Seq<char>, GlyphView>,
    height: nat,
    spacing: nat,
    l: int,
)
    requires
        spec_tokenize(input, umap, glyphs).len() >= 1,
        0 <= l < height,
    ensures
        spec_render_line(input, umap, glyphs, height, false, spacing)[l].len()
            == spec_render_line(input, umap, glyphs, height, false, 0)[l].len()
                + (spec_tokenize(input, umap, glyphs).len() - 1) * spacing,
{
    let tokens = spec_tokenize(input, umap, glyphs);
    let blocks = token_blocks(tokens, positions_of(tokens, glyphs), glyphs, height).reverse();
    lemma_row_spacing(blocks, l, spec_repeat(' ', spacing));
    assert(spec_repeat(' ', 0) =~= Seq::<char>::empty());
}

} // verus!
