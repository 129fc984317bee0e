use vstd::prelude::*;
use vstd::string::{StrSliceExecFns, StringExecFns};
use crate::models::{Glyph, GlyphTable, GlyphView};
use crate::renderer::{parse_art, spec_parse_art};
use crate::text::{repeat_char, spec_repeat};

verus! {

/// Pushing a string pushes its view.
proof fn lemma_push_views(v: Seq<String>, x: String)
    ensures
        v.push(x).map_values(|l: String| l@) == v.map_values(|l: String| l@).push(x@),
{
    assert(v.push(x).map_values(|l: String| l@) =~= v.map_values(|l: String| l@).push(x@));
}

/// `s` padded with spaces on the right to `width` characters, as the
/// format spec `{:<width}` writes it.
pub open spec fn pad_right(s: Seq<char>, width: nat) -> Seq<char> {
    if s.len() < width {
        s + spec_repeat(' ', (width - s.len()) as nat)
    } else {
        s
    }
}

/// `s` padded with spaces on the right to `width` characters.
pub fn padded(s: &str, width: usize) -> (r: String)
    ensures
        r@ == pad_right(s@, width as nat),
{
    let mut r = String::from_str(s);
    let n = s.unicode_len();
    if n < width {
        let pad = repeat_char(' ', width - n);
        r.append(pad.as_str());
    }
    r
}

/// The four columns of a row of the glyph list, padded to 12, 6, 10 and 10
/// characters and separated by spaces.
pub open spec fn list_row(a: Seq<char>, b: Seq<char>, c: Seq<char>, d: Seq<char>) -> Seq<char> {
    pad_right(a, 12) + seq![' '] + pad_right(b, 6) + seq![' '] + pad_right(c, 10) + seq![' '] + pad_right(d, 10)
}

/// "evet" for yes, "hayır" for no.
pub open spec fn yes_no(b: bool) -> Seq<char> {
    if b { "evet"@ } else { "hayır"@ }
}

/// The row of the glyph list for one glyph: its name, its character, and
/// whether it connects to the next and to the previous letter.
pub open spec fn glyph_row(name: Seq<char>, g: GlyphView) -> Seq<char> {
    list_row(name, g.unicode, yes_no(g.connects_next), yes_no(g.connects_prev))
}

/// The lines of the glyph list: the column titles, a rule of 42 `─`, and
/// one row per name, in the order given.
pub open spec fn spec_glyph_list(names: Seq<Seq<char>>, glyphs: Map<Seq<char>, GlyphView>) -> Seq<Seq<char>> {
    seq![list_row("Ad"@, "Harf"@, "Sağa bağ."@, "Sola bağ."@), spec_repeat('─', 42)]
        + names.map_values(|n: Seq<char>| glyph_row(n, glyphs[n]))
}

fn row(a: &str, b: &str, c: &str, d: &str) -> (r: String)
    ensures
        r@ == list_row(a@, b@, c@, d@),
{
    let mut r = padded(a, 12);
    r.append(" ");
    r.append(padded(b, 6).as_str());
    r.append(" ");
    r.append(padded(c, 10).as_str());
    r.append(" ");
    r.append(padded(d, 10).as_str());
    proof {
        reveal_strlit(" ");
    }
    assert(r@ =~= list_row(a@, b@, c@, d@));
    r
}

fn yes_no_text(b: bool) -> (r: &'static str)
    ensures
        r@ == yes_no(b),
{
    if b { "evet" } else { "hayır" }
}

/// The lines that the `list` command prints for the glyphs named, in that order.
pub fn glyph_list(glyphs: &GlyphTable, names: &[String]) -> (r: Vec<String>)
    requires
        forall|i: int| 0 <= i < names.len() ==> glyphs@.contains_key((#[trigger] names@[i])@),
    ensures
        r@.map_values(|l: String| l@) == spec_glyph_list(names@.map_values(|n: String| n@), glyphs@),
{
    let ghost nv = names@.map_values(|n: String| n@);
    let mut out: Vec<String> = Vec::new();
    out.push(row("Ad", "Harf", "Sağa bağ.", "Sola bağ."));
    out.push(repeat_char('─', 42));
    let mut i: usize = 0;
    while i < names.len()
        invariant
            i <= names.len(),
            nv == names@.map_values(|n: String| n@),
            forall|j: int| 0 <= j < names.len() ==> glyphs@.contains_key((#[trigger] names@[j])@),
            out@.map_values(|l: String| l@) == spec_glyph_list(nv.take(i as int), glyphs@),
        decreases names.len() - i,
    {
        let ghost before = out@.map_values(|l: String| l@);
        let name = &names[i];
        let g = glyphs.get(name.as_str()).unwrap();
        let line = row(name.as_str(), g.unicode.as_str(), yes_no_text(g.connects_next), yes_no_text(g.connects_prev));
        let ghost prev = out@;
        proof {
            lemma_push_views(prev, line);
        }
        out.push(line);
        assert(nv[i as int] == name@);
        assert(out@.map_values(|l: String| l@) =~= spec_glyph_list(nv.take(i + 1), glyphs@)) by {
            assert(nv.take(i + 1) =~= nv.take(i as int).push(nv[i as int]));
            assert(nv.take(i + 1).map_values(|n: Seq<char>| glyph_row(n, glyphs@[n])) =~= nv.take(i as int).map_values(|n: Seq<char>| glyph_row(n, glyphs@[n])).push(glyph_row(name@, glyphs@[name@])));
        }
        i = i + 1;
    }
    assert(nv.take(names.len() as int) =~= nv);
    out
}

/// "true" or "false".
pub open spec fn bool_text(b: bool) -> Seq<char> {
    if b { "true"@ } else { "false"@ }
}

/// The title line of a glyph sheet.
pub open spec fn sheet_title(name: Seq<char>, g: GlyphView) -> Seq<char> {
    "── "@ + name + " ("@ + g.unicode + ") ──  connects_next="@ + bool_text(g.connects_next)
        + ", connects_prev="@ + bool_text(g.connects_prev)
}

/// The block of one form on a glyph sheet: its label, the parsed art lines
/// between bars, and an empty line.
pub open spec fn form_block(label: Seq<char>, art: Seq<char>, height: nat) -> Seq<Seq<char>> {
    seq!["  "@ + label + ":"@]
        + spec_parse_art(art, height).map_values(|l: Seq<char>| "    |"@ + l + "|"@)
        + seq![Seq::<char>::empty()]
}

/// The lines that the `show` command prints for a glyph: the title, an
/// empty line, then the isolated, initial, medial and final forms.
pub open spec fn spec_glyph_sheet(name: Seq<char>, g: GlyphView, height: nat) -> Seq<Seq<char>> {
    seq![sheet_title(name, g), Seq::<char>::empty()]
        + form_block("Müstakil"@, g.isolated, height)
        + form_block("Başta   "@, g.initial, height)
        + form_block("Ortada  "@, g.medial, height)
        + form_block("Sonda   "@, g.final_form, height)
}

fn bool_str(b: bool) -> (r: &'static str)
    ensures
        r@ == bool_text(b),
{
    if b { "true" } else { "false" }
}

/// Appends the block of one form to `out`.
fn push_form_block(out: &mut Vec<String>, label: &str, art: &str, height: usize)
    ensures
        final(out)@.map_values(|l: String| l@) == old(out)@.map_values(|l: String| l@) + form_block(label@, art@, height as nat),
{
    let ghost start = old(out)@.map_values(|l: String| l@);
    let mut head = String::from_str("  ");
    head.append(label);
    head.append(":");
    out.push(head);
    let rendered = parse_art(art, height);
    let ghost lines = rendered@;
    let ghost framed = lines.map_values(|l: Seq<char>| "    |"@ + l + "|"@);
    let mut i: usize = 0;
    assert(out@.map_values(|l: String| l@) =~= start + seq!["  "@ + label@ + ":"@] + framed.take(0));
    while i < rendered.lines.len()
        invariant
            i <= rendered.lines.len(),
            lines == rendered@,
            framed == lines.map_values(|l: Seq<char>| "    |"@ + l + "|"@),
            out@.map_values(|l: String| l@) == start + seq!["  "@ + label@ + ":"@] + framed.take(i as int),
        decreases rendered.lines.len() - i,
    {
        let mut line = String::from_str("    |");
        line.append(rendered.lines[i].as_str());
        line.append("|");
        assert(lines[i as int] == rendered.lines@[i as int]@);
        let ghost prev = out@;
        proof {
            lemma_push_views(prev, line);
        }
        out.push(line);
        assert(framed.take(i + 1) =~= framed.take(i as int).push(framed[i as int]));
        assert(out@.map_values(|l: String| l@) =~= start + seq!["  "@ + label@ + ":"@] + framed.take(i + 1));
        i = i + 1;
    }
    assert(framed.take(lines.len() as int) =~= framed);
    let empty = String::new();
    let ghost prev = out@;
    proof {
        lemma_push_views(prev, empty);
    }
    out.push(empty);
    assert(out@.map_values(|l: String| l@) =~= start + form_block(label@, art@, height as nat));
}

/// The lines that the `show` command prints for the glyph `name`.
pub fn glyph_sheet(name: &str, glyph: &Glyph, height: usize) -> (r: Vec<String>)
    ensures
        r@.map_values(|l: String| l@) == spec_glyph_sheet(name@, glyph@, height as nat),
{
    let mut title = String::from_str("── ");
    title.append(name);
    title.append(" (");
    title.append(glyph.unicode.as_str());
    title.append(") ──  connects_next=");
    title.append(bool_str(glyph.connects_next));
    title.append(", connects_prev=");
    title.append(bool_str(glyph.connects_prev));
    let mut out: Vec<String> = Vec::new();
    out.push(title);
    out.push(String::new());
    assert(out@.map_values(|l: String| l@) =~= seq![sheet_title(name@, glyph@), Seq::<char>::empty()]);
    push_form_block(&mut out, "Müstakil", glyph.isolated.art.as_str(), height);
    push_form_block(&mut out, "Başta   ", glyph.initial.art.as_str(), height);
    push_form_block(&mut out, "Ortada  ", glyph.medial.art.as_str(), height);
    push_form_block(&mut out, "Sonda   ", glyph.final_form.art.as_str(), height);
    out
}

} // verus!
