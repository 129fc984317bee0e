use vstd::prelude::*;
use vstd::string::{StrSliceExecFns, StringExecFns};
use crate::models::{Glyph, GlyphForm, GlyphTable, GlyphView, Position, RenderedGlyph, Token, TokenView};
use crate::shaper::{glyphs_known, token_views};
use crate::text::{chars_of, push_char, repeat_char, spec_repeat};

verus! {

/// The pieces of `s` between its line feeds, as `str::split('\n')` gives
/// them: one more piece than there are line feeds.
pub open spec fn split_lines(s: Seq<char>) -> Seq<Seq<char>>
    decreases s.len(),
{
    if s.len() == 0 {
        seq![Seq::empty()]
    } else {
        let p = split_lines(s.drop_last());
        if s.last() == '\n' {
            p.push(Seq::empty())
        } else {
            p.update(p.len() - 1, p.last().push(s.last()))
        }
    }
}

/// Splitting never gives an empty list of pieces.
pub proof fn lemma_split_lines_nonempty(s: Seq<char>)
    ensures
        split_lines(s).len() >= 1,
    decreases s.len(),
{
    if s.len() > 0 {
        lemma_split_lines_nonempty(s.drop_last());
    }
}

/// The longest length among `lines`, 0 for no lines.
pub open spec fn max_len(lines: Seq<Seq<char>>) -> nat
    decreases lines.len(),
{
    if lines.len() == 0 {
        0
    } else {
        let m = max_len(lines.drop_last());
        if lines.last().len() > m {
            lines.last().len()
        } else {
            m
        }
    }
}

/// No line is longer than `max_len`, and some line reaches it where there are lines.
pub proof fn lemma_max_len(lines: Seq<Seq<char>>)
    ensures
        forall|i: int| 0 <= i < lines.len() ==> #[trigger] lines[i].len() <= max_len(lines),
        lines.len() > 0 ==> exists|i: int| 0 <= i < lines.len() && #[trigger] lines[i].len() == max_len(lines),
        lines.len() == 0 ==> max_len(lines) == 0,
    decreases lines.len(),
{
    if lines.len() > 0 {
        let t = lines.drop_last();
        lemma_max_len(t);
        assert forall|i: int| 0 <= i < lines.len() implies #[trigger] lines[i].len() <= max_len(lines) by {
            if i < t.len() {
                assert(lines[i] == t[i]);
            }
        }
        if lines.last().len() <= max_len(t) && t.len() > 0 {
            let i = choose|i: int| 0 <= i < t.len() && #[trigger] t[i].len() == max_len(t);
            assert(lines[i] == t[i]);
        }
    }
}

/// `line` followed by spaces up to `width` characters.
pub open spec fn pad_to(line: Seq<char>, width: nat) -> Seq<char> {
    if line.len() < width {
        line + spec_repeat(' ', (width - line.len()) as nat)
    } else {
        line
    }
}

/// Exactly `height` lines of an art string: its pieces between line feeds,
/// skipping a first piece that is empty, and empty lines past its end.
pub open spec fn art_lines(art: Seq<char>, height: nat) -> Seq<Seq<char>> {
    let raw = split_lines(art);
    let start: int = if raw[0].len() == 0 { 1 } else { 0 };
    Seq::new(height, |i: int| if start + i < raw.len() { raw[start + i] } else { Seq::empty() })
}

/// The art lines, each padded with spaces to the width of the widest.
pub open spec fn spec_parse_art(art: Seq<char>, height: nat) -> Seq<Seq<char>> {
    let lines = art_lines(art, height);
    lines.map_values(|l: Seq<char>| pad_to(l, max_len(lines)))
}

/// The pieces of `art` between its line feeds.
fn split_art(art: &str) -> (r: Vec<String>)
    ensures
        r@.map_values(|l: String| l@) == split_lines(art@),
{
    let chars = chars_of(art);
    let mut pieces: Vec<String> = Vec::new();
    let mut cur = String::new();
    let mut i: usize = 0;
    assert(chars@.take(0) =~= Seq::<char>::empty());
    while i < chars.len()
        invariant
            i <= chars.len(),
            chars@ == art@,
            pieces@.map_values(|l: String| l@).push(cur@) == split_lines(chars@.take(i as int)),
        decreases chars.len() - i,
    {
        let ghost prev = split_lines(chars@.take(i as int));
        proof {
            lemma_split_lines_nonempty(chars@.take(i as int));
        }
        assert(chars@.take(i + 1).drop_last() =~= chars@.take(i as int));
        let c = chars[i];
        if c == '\n' {
            let done = cur;
            cur = String::new();
            pieces.push(done);
            assert(pieces@.map_values(|l: String| l@).push(cur@) =~= prev.push(Seq::empty()));
        } else {
            push_char(&mut cur, c);
            assert(pieces@.map_values(|l: String| l@).push(cur@) =~= prev.update(prev.len() - 1, prev.last().push(c)));
        }
        i = i + 1;
    }
    assert(chars@.take(chars.len() as int) =~= chars@);
    pieces.push(cur);
    pieces
}

/// Parse a multi-line art string into exactly `height` lines, width-normalized.
pub fn parse_art(art: &str, height: usize) -> (r: RenderedGlyph)
    ensures
        r@ == spec_parse_art(art@, height as nat),
        r@.len() == height,
        forall|i: int| 0 <= i < height ==> (#[trigger] r@[i]).len() == max_len(art_lines(art@, height as nat)),
{
    let raw_lines = split_art(art);
    let ghost raw = split_lines(art@);
    proof {
        lemma_split_lines_nonempty(art@);
    }
    assert(raw_lines@[0]@ == raw[0]);
    let start: usize = if raw_lines[0].as_str().unicode_len() == 0 { 1 } else { 0 };
    let ghost lines_spec = art_lines(art@, height as nat);

    let mut lines: Vec<String> = Vec::new();
    let mut i: usize = 0;
    while i < height
        invariant
            i <= height,
            raw_lines@.map_values(|l: String| l@) == raw,
            raw == split_lines(art@),
            raw.len() >= 1,
            start == (if raw[0].len() == 0 { 1int } else { 0int }),
            lines_spec == art_lines(art@, height as nat),
            lines_spec.len() == height,
            lines.len() == i,
            forall|j: int| 0 <= j < i ==> (#[trigger] lines@[j])@ == lines_spec[j],
        decreases height - i,
    {
        let idx = start + i;
        if idx < raw_lines.len() {
            assert(raw_lines@[idx as int]@ == raw[idx as int]);
            assert(lines_spec[i as int] == raw[idx as int]);
            lines.push(raw_lines[idx].clone());
        } else {
            assert(lines_spec[i as int] == Seq::<char>::empty());
            lines.push(String::new());
        }
        i = i + 1;
    }

    let mut width: usize = 0;
    let mut k: usize = 0;
    while k < lines.len()
        invariant
            k <= lines.len(),
            lines.len() == height,
            lines_spec.len() == height,
            forall|j: int| 0 <= j < height ==> (#[trigger] lines@[j])@ == lines_spec[j],
            width == max_len(lines_spec.take(k as int)),
        decreases lines.len() - k,
    {
        assert(lines_spec.take(k + 1).drop_last() =~= lines_spec.take(k as int));
        let current = lines[k].as_str().unicode_len();
        if current > width {
            width = current;
        }
        k = k + 1;
    }
    assert(lines_spec.take(height as int) =~= lines_spec);
    proof {
        lemma_max_len(lines_spec);
    }

    let mut out: Vec<String> = Vec::new();
    let mut m: usize = 0;
    while m < lines.len()
        invariant
            m <= lines.len(),
            lines.len() == height,
            lines_spec.len() == height,
            forall|j: int| 0 <= j < height ==> (#[trigger] lines@[j])@ == lines_spec[j],
            forall|j: int| 0 <= j < height ==> (#[trigger] lines_spec[j]).len() <= width,
            width == max_len(lines_spec),
            out.len() == m,
            forall|j: int| 0 <= j < m ==> (#[trigger] out@[j])@ == pad_to(lines_spec[j], width as nat),
        decreases lines.len() - m,
    {
        let mut line = lines[m].clone();
        let current = line.as_str().unicode_len();
        if current < width {
            let pad = repeat_char(' ', width - current);
            line.append(pad.as_str());
        }
        out.push(line);
        m = m + 1;
    }
    let r = RenderedGlyph { lines: out };
    assert(r@ =~= spec_parse_art(art@, height as nat));
    r
}

/// Lines joined with line feeds between them, as `join("\n")` gives them.
pub open spec fn join_lines(lines: Seq<Seq<char>>) -> Seq<char>
    decreases lines.len(),
{
    if lines.len() == 0 {
        Seq::empty()
    } else if lines.len() == 1 {
        lines[0]
    } else {
        join_lines(lines.drop_last()) + seq!['\n'] + lines.last()
    }
}

/// The line holds no line feed.
pub open spec fn no_line_feed(line: Seq<char>) -> bool {
    forall|i: int| 0 <= i < line.len() ==> #[trigger] line[i] != '\n'
}

/// No piece that splitting gives holds a line feed.
proof fn lemma_split_pieces_plain(s: Seq<char>)
    ensures
        forall|k: int| 0 <= k < split_lines(s).len() ==> no_line_feed(#[trigger] split_lines(s)[k]),
    decreases s.len(),
{
    if s.len() > 0 {
        lemma_split_pieces_plain(s.drop_last());
        lemma_split_lines_nonempty(s.drop_last());
        let p = split_lines(s.drop_last());
        if s.last() != '\n' {
            let q = p.last().push(s.last());
            assert(no_line_feed(q)) by {
                assert forall|i: int| 0 <= i < q.len() implies #[trigger] q[i] != '\n' by {
                    if i < p.last().len() {
                        assert(no_line_feed(p[p.len() - 1]));
                    }
                }
            }
        }
    }
}

/// Appending text without line feeds extends the last piece.
proof fn lemma_split_append_plain(s: Seq<char>, t: Seq<char>)
    requires
        no_line_feed(t),
    ensures
        split_lines(s + t) == split_lines(s).update(split_lines(s).len() - 1, split_lines(s).last() + t),
    decreases t.len(),
{
    lemma_split_lines_nonempty(s);
    let p = split_lines(s);
    if t.len() == 0 {
        assert(s + t =~= s);
        assert(p.last() + t =~= p.last());
        assert(p.update(p.len() - 1, p.last()) =~= p);
    } else {
        let t0 = t.drop_last();
        assert(no_line_feed(t0)) by {
            assert forall|i: int| 0 <= i < t0.len() implies #[trigger] t0[i] != '\n' by {
                assert(t0[i] == t[i]);
            }
        }
        lemma_split_append_plain(s, t0);
        assert((s + t).drop_last() =~= s + t0);
        assert((s + t).last() == t.last());
        assert(t.last() != '\n');
        let q = split_lines(s + t0);
        assert(q.len() == p.len());
        assert(q.last() == p.last() + t0);
        assert(q.update(q.len() - 1, q.last().push(t.last())) =~= p.update(p.len() - 1, p.last() + t)) by {
            assert(q.last().push(t.last()) =~= p.last() + t);
        }
    }
}

/// Splitting lines joined with line feeds gives the lines back.
proof fn lemma_split_join(lines: Seq<Seq<char>>)
    requires
        lines.len() >= 1,
        forall|k: int| 0 <= k < lines.len() ==> no_line_feed(#[trigger] lines[k]),
    ensures
        split_lines(join_lines(lines)) == lines,
    decreases lines.len(),
{
    if lines.len() == 1 {
        lemma_split_append_plain(Seq::empty(), lines[0]);
        assert(Seq::<char>::empty() + lines[0] =~= lines[0]);
        assert(Seq::<char>::empty() + lines[0] =~= lines[0]);
        assert(split_lines(Seq::<char>::empty()).update(0, Seq::<char>::empty() + lines[0]) =~= lines);
    } else {
        let dl = lines.drop_last();
        assert forall|k: int| 0 <= k < dl.len() implies no_line_feed(#[trigger] dl[k]) by {
            assert(dl[k] == lines[k]);
        }
        lemma_split_join(dl);
        let head = join_lines(dl).push('\n');
        assert(join_lines(lines) =~= head + lines.last());
        assert(head.drop_last() =~= join_lines(dl));
        assert(split_lines(head) == dl.push(Seq::empty()));
        assert(no_line_feed(lines[lines.len() - 1]));
        lemma_split_append_plain(head, lines.last());
        assert(Seq::<char>::empty() + lines.last() =~= lines.last());
        assert(dl.push(Seq::empty()).update(dl.len() as int, Seq::<char>::empty() + lines.last()) =~= lines);
    }
}

/// Parsing parsed art again, its lines joined with line feeds, gives the
/// same lines: parsed art is already normalized.
pub proof fn lemma_parse_art_stable(art: Seq<char>, height: nat)
    ensures
        spec_parse_art(join_lines(spec_parse_art(art, height)), height) == spec_parse_art(art, height),
{
    let lines = art_lines(art, height);
    let w = max_len(lines);
    let r = spec_parse_art(art, height);
    lemma_max_len(lines);
    lemma_split_pieces_plain(art);
    lemma_split_lines_nonempty(art);
    assert forall|k: int| 0 <= k < r.len() implies no_line_feed(#[trigger] r[k]) && r[k].len() == w by {
        let l = lines[k];
        assert(no_line_feed(l)) by {
            let raw = split_lines(art);
            let start: int = if raw[0].len() == 0 { 1 } else { 0 };
            if start + k < raw.len() {
                assert(l == raw[start + k]);
            } else {
                assert(l =~= Seq::<char>::empty());
            }
        }
        assert(l.len() <= w);
        let p = pad_to(l, w);
        assert(r[k] == p);
        assert forall|i: int| 0 <= i < p.len() implies #[trigger] p[i] != '\n' by {
            if i >= l.len() {
                assert(p[i] == ' ');
            }
        }
    }
    let j = join_lines(r);
    if height == 0 {
        assert(r =~= Seq::<Seq<char>>::empty());
        assert(spec_parse_art(j, height) =~= r);
    } else {
        lemma_split_join(r);
        let raw2 = split_lines(j);
        let lines2 = art_lines(j, height);
        if r[0].len() == 0 {
            assert(w == 0);
            assert forall|k: int| 0 <= k < height implies #[trigger] lines2[k] == Seq::<char>::empty() by {
                if 1 + k < raw2.len() {
                    assert(lines2[k] == r[1 + k]);
                    assert(r[1 + k].len() == 0);
                }
            }
            lemma_max_len(lines2);
            assert(max_len(lines2) == 0) by {
                let i = choose|i: int| 0 <= i < lines2.len() && #[trigger] lines2[i].len() == max_len(lines2);
                assert(lines2[i].len() == 0);
            }
            assert forall|k: int| 0 <= k < height implies #[trigger] r[k] == Seq::<char>::empty() by {
                assert(r[k].len() == w);
            }
            assert(spec_parse_art(j, height) =~= r);
        } else {
            assert(lines2 =~= r);
            lemma_max_len(r);
            assert(max_len(r) == w) by {
                let i = choose|i: int| 0 <= i < r.len() && #[trigger] r[i].len() == max_len(r);
                assert(r[i].len() == w);
                assert(r[0].len() <= max_len(r));
            }
            assert forall|k: int| 0 <= k < height implies #[trigger] pad_to(r[k], w) == r[k] by {
                assert(r[k].len() == w);
            }
            assert(spec_parse_art(j, height) =~= r);
        }
    }
}

/// The art of the form of `g` for a position.
pub open spec fn form_art(g: GlyphView, p: Position) -> Seq<char> {
    match p {
        Position::Isolated => g.isolated,
        Position::Initial => g.initial,
        Position::Medial => g.medial,
        Position::Final => g.final_form,
    }
}

/// Select the appropriate art form for a glyph based on its position.
pub fn get_form<'a>(glyph: &'a Glyph, position: &Position) -> (r: &'a GlyphForm)
    ensures
        r@ == form_art(glyph@, *position),
{
    match position {
        Position::Isolated => &glyph.isolated,
        Position::Initial => &glyph.initial,
        Position::Medial => &glyph.medial,
        Position::Final => &glyph.final_form,
    }
}

/// The block that a space takes: `height` lines of three spaces.
pub open spec fn space_art(height: nat) -> Seq<Seq<char>> {
    Seq::new(height, |_i: int| spec_repeat(' ', 3))
}

/// The block of lines that a token takes in the given position.
pub open spec fn token_art(t: TokenView, p: Position, glyphs: Map<Seq<char>, GlyphView>, height: nat) -> Seq<Seq<char>> {
    match t {
        TokenView::Space => space_art(height),
        TokenView::Glyph(name) => spec_parse_art(form_art(glyphs[name], p), height),
    }
}

/// The blocks of all tokens, in reading order.
pub open spec fn token_blocks(tokens: Seq<TokenView>, positions: Seq<Position>, glyphs: Map<Seq<char>, GlyphView>, height: nat) -> Seq<Seq<Seq<char>>> {
    Seq::new(tokens.len(), |i: int| token_art(tokens[i], positions[i], glyphs, height))
}

/// Line `l` of the blocks laid side by side, left to right, with `spacer`
/// between neighbours.
pub open spec fn row(blocks: Seq<Seq<Seq<char>>>, l: int, spacer: Seq<char>) -> Seq<char>
    decreases blocks.len(),
{
    if blocks.len() == 0 {
        Seq::empty()
    } else if blocks.len() == 1 {
        blocks[0][l]
    } else {
        row(blocks.drop_last(), l, spacer) + spacer + blocks.last()[l]
    }
}

/// The output lines: the token blocks laid out right to left (the first
/// token rightmost), with `spacing` columns between neighbours.
pub open spec fn spec_render(tokens: Seq<TokenView>, positions: Seq<Position>, glyphs: Map<Seq<char>, GlyphView>, height: nat, spacing: nat) -> Seq<Seq<char>> {
    let blocks = token_blocks(tokens, positions, glyphs, height).reverse();
    Seq::new(height, |l: int| row(blocks, l, spec_repeat(' ', spacing)))
}

/// All lines of the block have one length.
pub open spec fn rectangular(block: Seq<Seq<char>>) -> bool {
    forall|i: int, j: int| 0 <= i < block.len() && 0 <= j < block.len() ==> (#[trigger] block[i]).len() == (#[trigger] block[j]).len()
}

/// Blocks of equal-length lines laid side by side give lines of equal length.
pub proof fn lemma_row_len(blocks: Seq<Seq<Seq<char>>>, l1: int, l2: int, spacer: Seq<char>, height: nat)
    requires
        0 <= l1 < height,
        0 <= l2 < height,
        forall|b: int| 0 <= b < blocks.len() ==> (#[trigger] blocks[b]).len() == height && rectangular(blocks[b]),
    ensures
        row(blocks, l1, spacer).len() == row(blocks, l2, spacer).len(),
    decreases blocks.len(),
{
    if blocks.len() > 0 {
        let t = blocks.drop_last();
        assert forall|b: int| 0 <= b < t.len() implies (#[trigger] t[b]).len() == height && rectangular(t[b]) by {
            assert(t[b] == blocks[b]);
        }
        lemma_row_len(t, l1, l2, spacer, height);
        let last = blocks[blocks.len() - 1];
        assert(last.len() == height && rectangular(last));
        assert(last[l1].len() == last[l2].len());
    }
}

/// Spaces and parsed art are blocks of `height` equal-length lines.
proof fn lemma_token_art_rect(t: TokenView, p: Position, glyphs: Map<Seq<char>, GlyphView>, height: nat)
    ensures
        token_art(t, p, glyphs, height).len() == height,
        rectangular(token_art(t, p, glyphs, height)),
{
    match t {
        TokenView::Space => {},
        TokenView::Glyph(name) => {
            let lines = art_lines(form_art(glyphs[name], p), height);
            lemma_max_len(lines);
            let b = spec_parse_art(form_art(glyphs[name], p), height);
            assert forall|i: int| 0 <= i < b.len() implies (#[trigger] b[i]).len() == max_len(lines) by {
                assert(lines[i].len() <= max_len(lines));
            }
        },
    }
}

/// The block of a space token.
fn space_block(height: usize) -> (r: RenderedGlyph)
    ensures
        r@ == space_art(height as nat),
{
    let mut lines: Vec<String> = Vec::new();
    let mut i: usize = 0;
    while i < height
        invariant
            i <= height,
            lines.len() == i,
            forall|j: int| 0 <= j < i ==> (#[trigger] lines@[j])@ == spec_repeat(' ', 3),
        decreases height - i,
    {
        lines.push(repeat_char(' ', 3));
        i = i + 1;
    }
    let r = RenderedGlyph { lines };
    assert(r@ =~= space_art(height as nat));
    r
}

/// Render tokens with their positional forms into final output lines.
pub fn render(
    tokens: &[Token],
    positions: &[Position],
    glyphs: &GlyphTable,
    height: usize,
    spacing: usize,
) -> (r: Vec<String>)
    requires
        glyphs_known(token_views(tokens@), glyphs@),
        forall|i: int| 0 <= i < tokens.len() && (#[trigger] tokens@[i]) is Glyph ==> i < positions.len(),
    ensures
        r@.map_values(|l: String| l@) == spec_render(token_views(tokens@), positions@, glyphs@, height as nat, spacing as nat),
        r.len() == height,
        forall|i: int, j: int| 0 <= i < height && 0 <= j < height ==> (#[trigger] r@[i])@.len() == (#[trigger] r@[j])@.len(),
{
    let ghost tv = token_views(tokens@);
    let ghost blocks = token_blocks(tv, positions@, glyphs@, height as nat);
    let mut rendered: Vec<RenderedGlyph> = Vec::new();
    let mut idx: usize = 0;
    while idx < tokens.len()
        invariant
            idx <= tokens.len(),
            tv == token_views(tokens@),
            blocks == token_blocks(tv, positions@, glyphs@, height as nat),
            glyphs_known(tv, glyphs@),
            forall|i: int| 0 <= i < tokens.len() && (#[trigger] tokens@[i]) is Glyph ==> i < positions.len(),
            rendered.len() == idx,
            forall|j: int| 0 <= j < idx ==> (#[trigger] rendered@[j])@ == blocks[j],
        decreases tokens.len() - idx,
    {
        assert(tv[idx as int] == tokens@[idx as int]@);
        match &tokens[idx] {
            Token::Space => {
                rendered.push(space_block(height));
            },
            Token::Glyph(name) => {
                let glyph = glyphs.get(name.as_str()).unwrap();
                let form = get_form(glyph, &positions[idx]);
                rendered.push(parse_art(form.art.as_str(), height));
            },
        }
        idx = idx + 1;
    }

    let spacer = repeat_char(' ', spacing);
    let ghost rev = blocks.reverse();
    let n = rendered.len();
    assert forall|b: int| 0 <= b < rev.len() implies (#[trigger] rev[b]).len() == height && rectangular(rev[b]) by {
        lemma_token_art_rect(tv[n - 1 - b], positions@[n - 1 - b], glyphs@, height as nat);
    }

    let mut output: Vec<String> = Vec::new();
    let mut line_idx: usize = 0;
    while line_idx < height
        invariant
            line_idx <= height,
            n == rendered.len(),
            n == blocks.len(),
            rev == blocks.reverse(),
            spacer@ == spec_repeat(' ', spacing as nat),
            forall|j: int| 0 <= j < n ==> (#[trigger] rendered@[j])@ == blocks[j],
            forall|b: int| 0 <= b < rev.len() ==> (#[trigger] rev[b]).len() == height && rectangular(rev[b]),
            output.len() == line_idx,
            forall|l: int| 0 <= l < line_idx ==> (#[trigger] output@[l])@ == row(rev, l, spacer@),
        decreases height - line_idx,
    {
        let mut line = String::new();
        let mut gi: usize = 0;
        while gi < n
            invariant
                gi <= n,
                line_idx < height,
                n == rendered.len(),
                n == blocks.len(),
                rev == blocks.reverse(),
                forall|j: int| 0 <= j < n ==> (#[trigger] rendered@[j])@ == blocks[j],
                forall|b: int| 0 <= b < rev.len() ==> (#[trigger] rev[b]).len() == height && rectangular(rev[b]),
                line@ == row(rev.take(gi as int), line_idx as int, spacer@),
                spacer@ == spec_repeat(' ', spacing as nat),
            decreases n - gi,
        {
            let rg = &rendered[n - 1 - gi];
            assert(rev[gi as int] == blocks[n - 1 - gi]);
            assert(rev.take(gi + 1).drop_last() =~= rev.take(gi as int));
            let ghost before = line@;
            if gi > 0 && spacing > 0 {
                line.append(spacer.as_str());
            }
            assert(gi > 0 ==> line@ =~= before + spacer@);
            assert(rg@[line_idx as int] == rg.lines@[line_idx as int]@);
            line.append(rg.lines[line_idx].as_str());
            gi = gi + 1;
        }
        assert(rev.take(n as int) =~= rev);
        output.push(line);
        line_idx = line_idx + 1;
    }
    assert(output@.map_values(|l: String| l@) =~= spec_render(tv, positions@, glyphs@, height as nat, spacing as nat));
    assert forall|i: int, j: int| 0 <= i < height && 0 <= j < height implies (#[trigger] output@[i])@.len() == (#[trigger] output@[j])@.len() by {
        lemma_row_len(rev, i, j, spacer@, height as nat);
    }
    output
}

/// `c` wrapped in the ANSI colour escape with the given code, followed by a reset.
pub open spec fn ansi_colored(code: Seq<char>, c: char) -> Seq<char> {
    seq!['\x1b', '['] + code + seq!['m', c, '\x1b', '[', '0', 'm']
}

/// What colouring makes of one character: full blocks yellow, half blocks
/// bright yellow, dots cyan, anything else unchanged.
pub open spec fn colored_char(c: char) -> Seq<char> {
    if c == '█' {
        ansi_colored(seq!['3', '3'], c)
    } else if c == '▄' || c == '▀' {
        ansi_colored(seq!['9', '3'], c)
    } else if c == '•' {
        ansi_colored(seq!['3', '6'], c)
    } else {
        seq![c]
    }
}

/// A line with every character coloured.
pub open spec fn spec_colorize(s: Seq<char>) -> Seq<char>
    decreases s.len(),
{
    if s.len() == 0 {
        Seq::empty()
    } else {
        spec_colorize(s.drop_last()) + colored_char(s.last())
    }
}

/// Whether colouring changes a character.
pub open spec fn is_art_char(c: char) -> bool {
    c == '█' || c == '▄' || c == '▀' || c == '•'
}

/// Appends `c` in the ANSI colour with the two-digit code `d1 d2`.
fn push_colored(s: &mut String, d1: char, d2: char, c: char)
    ensures
        final(s)@ == old(s)@ + ansi_colored(seq![d1, d2], c),
{
    push_char(s, '\x1b');
    push_char(s, '[');
    push_char(s, d1);
    push_char(s, d2);
    push_char(s, 'm');
    push_char(s, c);
    push_char(s, '\x1b');
    push_char(s, '[');
    push_char(s, '0');
    push_char(s, 'm');
    assert(s@ =~= old(s)@ + ansi_colored(seq![d1, d2], c));
}

/// Colour the art characters of a line with ANSI escapes.
pub fn colorize_line(line: &str) -> (r: String)
    ensures
        r@ == spec_colorize(line@),
{
    let chars = chars_of(line);
    let mut result = String::new();
    let mut i: usize = 0;
    while i < chars.len()
        invariant
            i <= chars.len(),
            chars@ == line@,
            result@ == spec_colorize(chars@.take(i as int)),
        decreases chars.len() - i,
    {
        assert(chars@.take(i + 1).drop_last() =~= chars@.take(i as int));
        let c = chars[i];
        if c == '█' {
            push_colored(&mut result, '3', '3', c);
        } else if c == '▄' || c == '▀' {
            push_colored(&mut result, '9', '3', c);
        } else if c == '•' {
            push_colored(&mut result, '3', '6', c);
        } else {
            push_char(&mut result, c);
        }
        i = i + 1;
    }
    assert(chars@.take(chars.len() as int) =~= chars@);
    result
}

/// Colouring leaves a line without art characters as it is.
pub proof fn lemma_colorize_plain(s: Seq<char>)
    requires
        forall|i: int| 0 <= i < s.len() ==> !is_art_char(#[trigger] s[i]),
    ensures
        spec_colorize(s) == s,
    decreases s.len(),
{
    if s.len() > 0 {
        let t = s.drop_last();
        assert forall|i: int| 0 <= i < t.len() implies !is_art_char(#[trigger] t[i]) by {
            assert(t[i] == s[i]);
        }
        lemma_colorize_plain(t);
        assert(!is_art_char(s[s.len() - 1]));
        assert(s =~= t + seq![s.last()]);
    }
}

/// Colouring a concatenation colours each part.
pub proof fn lemma_colorize_concat(s: Seq<char>, t: Seq<char>)
    ensures
        spec_colorize(s + t) == spec_colorize(s) + spec_colorize(t),
    decreases t.len(),
{
    if t.len() == 0 {
        assert(s + t =~= s);
        assert(spec_colorize(t) =~= Seq::<char>::empty());
        assert(spec_colorize(s) + spec_colorize(t) =~= spec_colorize(s));
    } else {
        lemma_colorize_concat(s, t.drop_last());
        assert((s + t).drop_last() =~= s + t.drop_last());
        assert((s + t).last() == t.last());
        assert(spec_colorize(s) + spec_colorize(t) =~= (spec_colorize(s) + spec_colorize(t.drop_last())) + colored_char(t.last()));
    }
}

/// Every art character is coloured wherever it stands: the full block in
/// yellow (33), both half blocks in bright yellow (93), the dot in cyan
/// (36), each as ESC `[` code `m`, the character, ESC `[0m`.
pub proof fn lemma_art_chars_colored(s: Seq<char>, c: char, t: Seq<char>)
    requires
        c == '█' || c == '▄' || c == '▀' || c == '•',
    ensures
        spec_colorize(s + seq![c] + t) == spec_colorize(s)
            + seq!['\x1b', '[']
            + (if c == '█' { seq!['3', '3'] } else if c == '•' { seq!['3', '6'] } else { seq!['9', '3'] })
            + seq!['m', c, '\x1b', '[', '0', 'm']
            + spec_colorize(t),
{
    lemma_colorize_concat(s + seq![c], t);
    lemma_colorize_concat(s, seq![c]);
    assert(seq![c].drop_last() =~= Seq::<char>::empty());
    assert(seq![c].last() == c);
    assert(spec_colorize(Seq::<char>::empty()) =~= Seq::<char>::empty());
    let code = if c == '█' { seq!['3', '3'] } else if c == '•' { seq!['3', '6'] } else { seq!['9', '3'] };
    assert(spec_colorize(seq![c]) =~= seq!['\x1b', '['] + code + seq!['m', c, '\x1b', '[', '0', 'm']);
    assert(spec_colorize(s) + spec_colorize(seq![c]) + spec_colorize(t) =~= spec_colorize(s)
        + seq!['\x1b', '['] + code + seq!['m', c, '\x1b', '[', '0', 'm'] + spec_colorize(t));
}

/// Laying blocks side by side with a spacer makes each line wider, by the
/// spacer's length once between each two neighbouring blocks.
pub proof fn lemma_row_spacing(blocks: Seq<Seq<Seq<char>>>, l: int, spacer: Seq<char>)
    requires
        blocks.len() >= 1,
    ensures
        row(blocks, l, spacer).len() == row(blocks, l, Seq::empty()).len() + (blocks.len() - 1) * spacer.len(),
    decreases blocks.len(),
{
    let e = Seq::<char>::empty();
    if blocks.len() > 1 {
        let d = blocks.drop_last();
        lemma_row_spacing(d, l, spacer);
        let k: int = blocks.len() - 2;
        let m: int = spacer.len() as int;
        assert((k + 1) * m == k * m + m) by (nonlinear_arith);
        assert(row(blocks, l, spacer) == row(d, l, spacer) + spacer + blocks.last()[l]);
        assert(row(blocks, l, e) == row(d, l, e) + e + blocks.last()[l]);
        assert(row(blocks, l, e).len() == row(d, l, e).len() + blocks.last()[l].len());
        assert(row(blocks, l, spacer).len() == row(d, l, spacer).len() + m + blocks.last()[l].len());
    } else {
        assert(0 * spacer.len() == 0);
    }
}

/// The frame drawn around no lines at all.
pub open spec fn empty_frame() -> Seq<Seq<char>> {
    seq![
        seq!['╔', '═', '═', '╗'],
        seq!['║', ' ', ' ', '║'],
        seq!['╚', '═', '═', '╝'],
    ]
}

/// A horizontal border of the frame: `left`, `width + 2` rules, `right`.
pub open spec fn border(left: char, right: char, width: nat) -> Seq<char> {
    seq![left] + spec_repeat('═', width + 2) + seq![right]
}

/// A framed line: the line padded to `width`, with a space and a bar on either side.
pub open spec fn framed_line(line: Seq<char>, width: nat) -> Seq<char> {
    seq!['║', ' '] + line + spec_repeat(' ', (width - line.len()) as nat) + seq![' ', '║']
}

/// The lines in a box drawn with box-drawing characters.
pub open spec fn spec_frame(lines: Seq<Seq<char>>) -> Seq<Seq<char>> {
    if lines.len() == 0 {
        empty_frame()
    } else {
        let width = max_len(lines);
        seq![border('╔', '╗', width)] + lines.map_values(|l: Seq<char>| framed_line(l, width))
            + seq![border('╚', '╝', width)]
    }
}

/// A string built from the given characters.
fn string_of(cs: &[char]) -> (r: String)
    ensures
        r@ == cs@,
{
    let mut s = String::new();
    let mut i: usize = 0;
    while i < cs.len()
        invariant
            i <= cs.len(),
            s@ == cs@.take(i as int),
        decreases cs.len() - i,
    {
        push_char(&mut s, cs[i]);
        i = i + 1;
        assert(s@ =~= cs@.take(i as int));
    }
    assert(cs@.take(cs.len() as int) =~= cs@);
    s
}

/// A border line of the frame.
fn make_border(left: char, right: char, width: usize) -> (r: String)
    ensures
        r@ == border(left, right, width as nat),
{
    let mut s = String::new();
    push_char(&mut s, left);
    let rule = repeat_char('═', width);
    s.append(rule.as_str());
    push_char(&mut s, '═');
    push_char(&mut s, '═');
    push_char(&mut s, right);
    assert(s@ =~= border(left, right, width as nat));
    s
}

/// Wrap lines in a Unicode box frame.
pub fn frame_output(lines: &[String]) -> (r: Vec<String>)
    ensures
        r@.map_values(|l: String| l@) == spec_frame(lines@.map_values(|l: String| l@)),
        r.len() == (if lines.len() == 0 { 3 } else { lines.len() + 2 }),
        forall|i: int, j: int| 0 <= i < r.len() && 0 <= j < r.len() ==> (#[trigger] r@[i])@.len() == (#[trigger] r@[j])@.len(),
{
    let ghost lv = lines@.map_values(|l: String| l@);
    if lines.len() == 0 {
        let mut result: Vec<String> = Vec::new();
        result.push(string_of(&['╔', '═', '═', '╗']));
        result.push(string_of(&['║', ' ', ' ', '║']));
        result.push(string_of(&['╚', '═', '═', '╝']));
        assert(result@.map_values(|l: String| l@) =~= empty_frame());
        return result;
    }

    let mut width: usize = 0;
    let mut k: usize = 0;
    while k < lines.len()
        invariant
            k <= lines.len(),
            lv == lines@.map_values(|l: String| l@),
            width == max_len(lv.take(k as int)),
        decreases lines.len() - k,
    {
        assert(lv.take(k + 1).drop_last() =~= lv.take(k as int));
        let current = lines[k].as_str().unicode_len();
        if current > width {
            width = current;
        }
        k = k + 1;
    }
    assert(lv.take(lines.len() as int) =~= lv);
    proof {
        lemma_max_len(lv);
    }

    let mut result: Vec<String> = Vec::new();
    result.push(make_border('╔', '╗', width));
    let mut i: usize = 0;
    while i < lines.len()
        invariant
            i <= lines.len(),
            lv == lines@.map_values(|l: String| l@),
            width == max_len(lv),
            forall|j: int| 0 <= j < lv.len() ==> (#[trigger] lv[j]).len() <= width,
            result.len() == i + 1,
            result@[0]@ == border('╔', '╗', width as nat),
            forall|j: int| 0 <= j < i ==> (#[trigger] result@[j + 1])@ == framed_line(lv[j], width as nat),
        decreases lines.len() - i,
    {
        assert(lv[i as int] == lines@[i as int]@);
        let mut line = String::new();
        push_char(&mut line, '║');
        push_char(&mut line, ' ');
        line.append(lines[i].as_str());
        let current = lines[i].as_str().unicode_len();
        let padding = repeat_char(' ', width - current);
        line.append(padding.as_str());
        push_char(&mut line, ' ');
        push_char(&mut line, '║');
        assert(line@ =~= framed_line(lv[i as int], width as nat));
        result.push(line);
        i = i + 1;
    }
    result.push(make_border('╚', '╝', width));
    let ghost expected = spec_frame(lv);
    let ghost rv = result@.map_values(|l: String| l@);
    assert(rv =~= expected) by {
        assert forall|j: int| 0 <= j < result.len() implies #[trigger] rv[j] == expected[j] by {
            if 1 <= j < result.len() - 1 {
                assert(result@[(j - 1) + 1]@ == framed_line(lv[j - 1], width as nat));
            }
        }
    }
    assert forall|a: int, b: int| 0 <= a < result.len() && 0 <= b < result.len() implies (#[trigger] result@[a])@.len() == (#[trigger] result@[b])@.len() by {
        assert forall|j: int| 0 <= j < result.len() implies (#[trigger] result@[j])@.len() == width + 4 by {
            if 1 <= j < result.len() - 1 {
                assert(result@[(j - 1) + 1]@ == framed_line(lv[j - 1], width as nat));
            }
        }
    }
    result
}

/// The text of a file of output lines, each coloured where `ansi` is set and
/// ended by a line feed.
pub open spec fn spec_file_content(lines: Seq<Seq<char>>, ansi: bool) -> Seq<char>
    decreases lines.len(),
{
    if lines.len() == 0 {
        Seq::empty()
    } else {
        let line = if ansi { spec_colorize(lines.last()) } else { lines.last() };
        spec_file_content(lines.drop_last(), ansi) + line + seq!['\n']
    }
}

/// The text of a file of output lines.
pub fn file_content(lines: &[String], ansi: bool) -> (r: String)
    ensures
        r@ == spec_file_content(lines@.map_values(|l: String| l@), ansi),
{
    let ghost lv = lines@.map_values(|l: String| l@);
    let mut content = String::new();
    let mut i: usize = 0;
    while i < lines.len()
        invariant
            i <= lines.len(),
            lv == lines@.map_values(|l: String| l@),
            content@ == spec_file_content(lv.take(i as int), ansi),
        decreases lines.len() - i,
    {
        assert(lv.take(i + 1).drop_last() =~= lv.take(i as int));
        assert(lv[i as int] == lines@[i as int]@);
        if ansi {
            let colored = colorize_line(lines[i].as_str());
            content.append(colored.as_str());
        } else {
            content.append(lines[i].as_str());
        }
        push_char(&mut content, '\n');
        i = i + 1;
    }
    assert(lv.take(lines.len() as int) =~= lv);
    content
}

} // verus!
