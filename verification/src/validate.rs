use vstd::prelude::*;
use vstd::string::StrSliceExecFns;
use crate::models::{Glyph, GlyphTable, GlyphView};
use crate::renderer::{max_len, parse_art, spec_parse_art};

verus! {

/// The art of the four forms of a glyph: isolated, initial, medial, final.
pub open spec fn form_arts(g: GlyphView) -> Seq<Seq<char>> {
    seq![g.isolated, g.initial, g.medial, g.final_form]
}

/// The width of the parsed art of each form.
pub open spec fn form_widths(g: GlyphView, height: nat) -> Seq<int> {
    form_arts(g).map_values(|a: Seq<char>| max_len(spec_parse_art(a, height)) as int)
}

/// Whether two forms of the glyph differ in width by more than two columns.
pub open spec fn widths_inconsistent(g: GlyphView, height: nat) -> bool {
    let w = form_widths(g, height);
    exists|i: int, j: int| 0 <= i < 4 && 0 <= j < 4 && #[trigger] w[i] - #[trigger] w[j] > 2
}

/// The glyphs of the table in its order.
pub open spec fn glyph_list(t: &GlyphTable) -> Seq<GlyphView> {
    Seq::new(t.count(), |i: int| t@[t.name_at(i)])
}

/// How many of the glyphs have forms of inconsistent width.
pub open spec fn count_inconsistent(gs: Seq<GlyphView>, height: nat) -> nat
    decreases gs.len(),
{
    if gs.len() == 0 {
        0
    } else {
        count_inconsistent(gs.drop_last(), height) + if widths_inconsistent(gs.last(), height) { 1nat } else { 0nat }
    }
}

/// What checking one glyph found.
pub struct GlyphCheck {
    /// The name of the glyph.
    pub name: String,
    /// How many lines the parsed art of each form has, in the order isolated, initial, medial, final.
    pub line_counts: Vec<usize>,
    /// The width of the parsed art of each form, in the same order.
    pub widths: Vec<usize>,
    /// Whether every form has the full height.
    pub height_ok: bool,
    /// Whether two forms differ in width by more than two columns.
    pub widths_inconsistent: bool,
}

/// What checking a glyph table found.
pub struct ValidationReport {
    /// How many glyphs were checked.
    pub validated: usize,
    /// How many warnings the checks gave.
    pub warnings: usize,
    /// One check per glyph, in table order.
    pub checks: Vec<GlyphCheck>,
}

/// Check the four forms of one glyph.
pub fn check_glyph(name: &String, glyph: &Glyph, height: usize) -> (r: GlyphCheck)
    ensures
        r.name@ == name@,
        r.line_counts@ == seq![height, height, height, height],
        r.widths@.map_values(|w: usize| w as int) == form_widths(glyph@, height as nat),
        r.height_ok,
        r.widths_inconsistent == widths_inconsistent(glyph@, height as nat),
{
    let forms: [&String; 4] = [&glyph.isolated.art, &glyph.initial.art, &glyph.medial.art, &glyph.final_form.art];
    let ghost arts = form_arts(glyph@);
    let mut line_counts: Vec<usize> = Vec::new();
    let mut widths: Vec<usize> = Vec::new();
    let mut height_ok = true;
    let mut f: usize = 0;
    while f < 4
        invariant
            f <= 4,
            arts == form_arts(glyph@),
            forall|k: int| 0 <= k < 4 ==> (#[trigger] forms@[k])@ == arts[k],
            line_counts@ == Seq::new(f as nat, |_k: int| height),
            widths.len() == f,
            forall|k: int| 0 <= k < f ==> (#[trigger] widths@[k]) as int == max_len(spec_parse_art(arts[k], height as nat)),
            height_ok,
        decreases 4 - f,
    {
        let rendered = parse_art(forms[f].as_str(), height);
        if rendered.lines.len() != height {
            height_ok = false;
        }
        let ghost lv = rendered@;
        let mut w: usize = 0;
        let mut k: usize = 0;
        while k < rendered.lines.len()
            invariant
                k <= rendered.lines.len(),
                lv == rendered@,
                w == max_len(lv.take(k as int)),
            decreases rendered.lines.len() - k,
        {
            assert(lv.take(k + 1).drop_last() =~= lv.take(k as int));
            let c = rendered.lines[k].as_str().unicode_len();
            if c > w {
                w = c;
            }
            k = k + 1;
        }
        assert(lv.take(lv.len() as int) =~= lv);
        line_counts.push(rendered.lines.len());
        widths.push(w);
        f = f + 1;
        assert(line_counts@ =~= Seq::new(f as nat, |_k: int| height));
    }

    let mut min_w = widths[0];
    let mut max_w = widths[0];
    let mut k: usize = 1;
    while k < 4
        invariant
            1 <= k <= 4,
            widths.len() == 4,
            forall|j: int| 0 <= j < k ==> min_w <= #[trigger] widths@[j] <= max_w,
            exists|j: int| 0 <= j < k && #[trigger] widths@[j] == min_w,
            exists|j: int| 0 <= j < k && #[trigger] widths@[j] == max_w,
        decreases 4 - k,
    {
        if widths[k] < min_w {
            min_w = widths[k];
        }
        if widths[k] > max_w {
            max_w = widths[k];
        }
        k = k + 1;
    }
    let inconsistent = max_w - min_w > 2;
    let ghost ws = form_widths(glyph@, height as nat);
    assert(widths@.map_values(|w: usize| w as int) =~= ws);
    assert(inconsistent == widths_inconsistent(glyph@, height as nat)) by {
        let i = choose|j: int| 0 <= j < 4 && #[trigger] widths@[j] == max_w;
        let j = choose|j: int| 0 <= j < 4 && #[trigger] widths@[j] == min_w;
        assert(ws[i] == max_w && ws[j] == min_w);
        if widths_inconsistent(glyph@, height as nat) {
            let (a, b) = choose|a: int, b: int| 0 <= a < 4 && 0 <= b < 4 && #[trigger] ws[a] - #[trigger] ws[b] > 2;
            assert(ws[a] == widths@[a] && ws[b] == widths@[b]);
        }
    }
    GlyphCheck {
        name: name.clone(),
        line_counts,
        widths,
        height_ok,
        widths_inconsistent: inconsistent,
    }
}

/// Check every glyph of the table: each form must have the full height, and
/// the forms of a glyph must not differ in width by more than two columns.
pub fn validate_glyphs(glyphs: &GlyphTable, height: usize) -> (r: ValidationReport)
    ensures
        r.validated == glyphs@.len(),
        r.warnings == count_inconsistent(glyph_list(glyphs), height as nat),
        r.checks.len() == glyphs@.len(),
        forall|i: int| 0 <= i < r.checks.len() ==> {
            &&& (#[trigger] r.checks@[i]).name@ == glyphs.name_at(i)
            &&& r.checks@[i].height_ok
            &&& r.checks@[i].line_counts@ == seq![height, height, height, height]
            &&& r.checks@[i].widths_inconsistent == widths_inconsistent(glyphs@[glyphs.name_at(i)], height as nat)
            &&& r.checks@[i].widths@.map_values(|w: usize| w as int) == form_widths(glyphs@[glyphs.name_at(i)], height as nat)
        },
{
    let n = glyphs.len();
    let ghost gs = glyph_list(glyphs);
    let mut warnings: usize = 0;
    let mut validated: usize = 0;
    let mut checks: Vec<GlyphCheck> = Vec::new();
    while validated < n
        invariant
            validated <= n,
            n == glyphs.count(),
            gs == glyph_list(glyphs),
            warnings == count_inconsistent(gs.take(validated as int), height as nat),
            warnings <= validated,
            checks.len() == validated,
            forall|i: int| 0 <= i < validated ==> {
                &&& (#[trigger] checks@[i]).name@ == glyphs.name_at(i)
                &&& checks@[i].height_ok
                &&& checks@[i].line_counts@ == seq![height, height, height, height]
                &&& checks@[i].widths_inconsistent == widths_inconsistent(glyphs@[glyphs.name_at(i)], height as nat)
                &&& checks@[i].widths@.map_values(|w: usize| w as int) == form_widths(glyphs@[glyphs.name_at(i)], height as nat)
            },
        decreases n - validated,
    {
        let (name, glyph) = glyphs.entry(validated);
        let check = check_glyph(name, glyph, height);
        assert(gs.take(validated + 1).drop_last() =~= gs.take(validated as int));
        assert(gs[validated as int] == glyph@);
        if !check.height_ok {
            warnings = warnings + 1;
        }
        if check.widths_inconsistent {
            warnings = warnings + 1;
        }
        checks.push(check);
        validated = validated + 1;
    }
    assert(gs.take(n as int) =~= gs);
    ValidationReport { validated, warnings, checks }
}

} // verus!
