use kukufi::cli::{add_block, input_line, wants_ansi};
use kukufi::listing::{glyph_list, glyph_sheet, padded};
use kukufi::order::{sort_strings, str_le};
use kukufi::models::{Glyph, GlyphForm, GlyphTable, Position, Token, UnicodeMap};
use kukufi::renderer::{colorize_line, file_content, frame_output, get_form, parse_art, render};
use kukufi::shaper::{
    build_unicode_map, determine_positions, load_glyphs, normalize_char, rejected_entries,
    skipped_chars, tokenize,
};
use kukufi::text::{char_is_whitespace, chars_of, ends_with, is_blank, repeat_char, trim};
use kukufi::tui::{apply_key, preview, render_line, Font, KeyInput, KeyPress};
use kukufi::validate::{check_glyph, validate_glyphs};

fn form(art: &str) -> GlyphForm {
    GlyphForm { art: art.to_string() }
}

fn glyph4(unicode: &str, next: bool, prev: bool, arts: [&str; 4]) -> Glyph {
    Glyph {
        unicode: unicode.to_string(),
        connects_next: next,
        connects_prev: prev,
        isolated: form(arts[0]),
        initial: form(arts[1]),
        medial: form(arts[2]),
        final_form: form(arts[3]),
    }
}

fn simple(unicode: &str, next: bool, prev: bool) -> Glyph {
    glyph4(unicode, next, prev, ["\nI\nI", "\nB\nB", "\nM\nM", "\nF\nF"])
}

fn font() -> GlyphTable {
    let mut t = GlyphTable::new();
    t.insert("ba".to_string(), simple("\u{0628}", true, true));
    t.insert("alif".to_string(), simple("\u{0627}", false, true));
    t.insert("lam".to_string(), simple("\u{0644}", true, true));
    t
}

fn names(tokens: &[Token]) -> Vec<String> {
    tokens
        .iter()
        .map(|t| match t {
            Token::Glyph(n) => n.clone(),
            Token::Space => " ".to_string(),
        })
        .collect()
}

fn strings(v: &[&str]) -> Vec<String> {
    v.iter().map(|s| s.to_string()).collect()
}

#[test]
fn normalize_char_maps_variants_and_drops_marks() {
    assert_eq!(normalize_char('\u{0622}'), Some('\u{0627}'));
    assert_eq!(normalize_char('\u{0671}'), Some('\u{0627}'));
    assert_eq!(normalize_char('\u{0629}'), Some('\u{0647}'));
    assert_eq!(normalize_char('\u{064E}'), None);
    assert_eq!(normalize_char('\u{0670}'), None);
    assert_eq!(normalize_char('\u{0640}'), None);
    assert_eq!(normalize_char('x'), Some('x'));
    assert_eq!(normalize_char(' '), Some(' '));
}

#[test]
fn lam_alif_without_ligature_glyph_gives_two_tokens() {
    let glyphs = font();
    let map = build_unicode_map(&glyphs);
    let tokens = tokenize("لا", &map, &glyphs);
    assert_eq!(names(&tokens), strings(&["lam", "alif"]));
}

#[test]
fn tokenize_keeps_spaces_and_skips_unknown() {
    let glyphs = font();
    let map = build_unicode_map(&glyphs);
    let tokens = tokenize("ب x ا", &map, &glyphs);
    assert_eq!(names(&tokens), strings(&["ba", " ", " ", "alif"]));
    let tokens = tokenize("   ", &map, &glyphs);
    assert_eq!(tokens.len(), 3);
}

#[test]
fn unicode_map_skips_multi_char_and_empty_unicode() {
    let mut glyphs = font();
    glyphs.insert("pair".to_string(), simple("ab", false, false));
    glyphs.insert("none".to_string(), simple("", false, false));
    let map = build_unicode_map(&glyphs);
    assert_eq!(map.len(), 3);
    assert_eq!(map.get('a'), None);
    assert_eq!(map.get('\u{0628}').map(|s| s.as_str()), Some("ba"));
}

#[test]
fn unicode_map_shared_char_names_one_of_the_glyphs() {
    let mut glyphs = GlyphTable::new();
    glyphs.insert("one".to_string(), simple("z", false, false));
    glyphs.insert("two".to_string(), simple("z", false, false));
    let map = build_unicode_map(&glyphs);
    assert_eq!(map.len(), 1);
    let name = map.get('z').unwrap().clone();
    assert!(name == "one" || name == "two");
}

#[test]
fn glyph_table_insert_replaces_and_get_reads_back() {
    let mut t = GlyphTable::new();
    assert_eq!(t.len(), 0);
    t.insert("a".to_string(), simple("x", true, false));
    t.insert("b".to_string(), simple("y", false, true));
    t.insert("a".to_string(), simple("w", false, false));
    assert_eq!(t.len(), 2);
    assert_eq!(t.get("a").unwrap().unicode, "w");
    assert!(!t.get("a").unwrap().connects_next);
    assert!(t.contains_key("b"));
    assert!(!t.contains_key("c"));
    assert!(t.get("c").is_none());
}

#[test]
fn unicode_map_insert_replaces() {
    let mut m = UnicodeMap::new();
    m.insert('q', "first".to_string());
    m.insert('q', "second".to_string());
    assert_eq!(m.len(), 1);
    assert_eq!(m.get('q').unwrap(), "second");
}

#[test]
fn positions_of_mixed_word() {
    let glyphs = font();
    let map = build_unicode_map(&glyphs);
    // ba ba alif ba: alif does not join forward
    let tokens = tokenize("ببAب".replace('A', "ا").as_str(), &map, &glyphs);
    let p = determine_positions(&tokens, &glyphs);
    assert_eq!(p, vec![Position::Initial, Position::Medial, Position::Final, Position::Isolated]);
}

#[test]
fn positions_of_space_only() {
    let glyphs = font();
    let p = determine_positions(&[Token::Space, Token::Space], &glyphs);
    assert_eq!(p, vec![Position::Isolated, Position::Isolated]);
}

#[test]
fn space_breaks_words_law_on_values() {
    let glyphs = font();
    let map = build_unicode_map(&glyphs);
    let tokens = tokenize("بب ب", &map, &glyphs);
    let p = determine_positions(&tokens, &glyphs);
    assert_eq!(p[1], Position::Final);
    assert_eq!(p[2], Position::Isolated);
    assert_eq!(p[3], Position::Isolated);
}

#[test]
fn parse_art_skips_leading_newline_and_pads() {
    let r = parse_art("\nab\nc", 3);
    assert_eq!(r.lines, strings(&["ab", "c ", "  "]));
    let r = parse_art("x\ny", 1);
    assert_eq!(r.lines, strings(&["x"]));
    let r = parse_art("", 2);
    assert_eq!(r.lines, strings(&["", ""]));
    let r = parse_art("\n\nab", 2);
    assert_eq!(r.lines, strings(&["  ", "ab"]));
    let r = parse_art("█▄\n•", 2);
    assert_eq!(r.lines, strings(&["█▄", "• "]));
}

#[test]
fn get_form_selects_by_position() {
    let g = glyph4("x", true, true, ["i", "b", "m", "f"]);
    assert_eq!(get_form(&g, &Position::Isolated).art, "i");
    assert_eq!(get_form(&g, &Position::Initial).art, "b");
    assert_eq!(get_form(&g, &Position::Medial).art, "m");
    assert_eq!(get_form(&g, &Position::Final).art, "f");
}

#[test]
fn render_lays_out_right_to_left_with_spacing() {
    let mut glyphs = GlyphTable::new();
    glyphs.insert("ba".to_string(), glyph4("b", true, true, ["\n▄▄\n██\ni", "B", "M", "F"]));
    let tokens = vec![Token::Glyph("ba".to_string()), Token::Space];
    let positions = vec![Position::Isolated, Position::Isolated];
    let out = render(&tokens, &positions, &glyphs, 3, 1);
    assert_eq!(out, strings(&["    ▄▄", "    ██", "    i "]));
    let out = render(&tokens, &positions, &glyphs, 3, 0);
    assert_eq!(out, strings(&["   ▄▄", "   ██", "   i "]));
}

#[test]
fn render_lines_have_equal_width() {
    let glyphs = font();
    let map = build_unicode_map(&glyphs);
    let tokens = tokenize("بلا ب", &map, &glyphs);
    let positions = determine_positions(&tokens, &glyphs);
    let out = render(&tokens, &positions, &glyphs, 4, 2);
    assert_eq!(out.len(), 4);
    let w = out[0].chars().count();
    assert!(out.iter().all(|l| l.chars().count() == w));
}

#[test]
fn render_with_no_tokens_gives_empty_lines() {
    let glyphs = font();
    let out = render(&[], &[], &glyphs, 2, 3);
    assert_eq!(out, strings(&["", ""]));
}

#[test]
fn frame_exact_values() {
    let framed = frame_output(&strings(&["ab", "c"]));
    assert_eq!(framed, strings(&["╔════╗", "║ ab ║", "║ c  ║", "╚════╝"]));
    let framed = frame_output(&[]);
    assert_eq!(framed, strings(&["╔══╗", "║  ║", "╚══╝"]));
    let framed = frame_output(&strings(&[""]));
    assert_eq!(framed, strings(&["╔══╗", "║  ║", "╚══╝"]));
}

#[test]
fn frame_lines_have_equal_width() {
    let framed = frame_output(&strings(&["█▄▀", "", "x"]));
    let w = framed[0].chars().count();
    assert_eq!(w, 7);
    assert!(framed.iter().all(|l| l.chars().count() == w));
}

#[test]
fn colorize_exact_and_plain_unchanged() {
    assert_eq!(colorize_line("a█"), "a\x1b[33m█\x1b[0m");
    assert_eq!(colorize_line("▀"), "\x1b[93m▀\x1b[0m");
    assert_eq!(colorize_line("•b"), "\x1b[36m•\x1b[0mb");
    assert_eq!(colorize_line("plain text"), "plain text");
    assert_eq!(colorize_line(""), "");
}

#[test]
fn file_content_ends_each_line() {
    let lines = strings(&["ab", "█"]);
    assert_eq!(file_content(&lines, false), "ab\n█\n");
    assert_eq!(file_content(&lines, true), "ab\n\x1b[33m█\x1b[0m\n");
    assert_eq!(file_content(&[], true), "");
}

#[test]
fn wants_ansi_by_flag_or_extension() {
    assert!(wants_ansi(true, "out.txt"));
    assert!(wants_ansi(false, "out.ans"));
    assert!(!wants_ansi(false, "out.txt"));
    assert!(!wants_ansi(false, "ans"));
    assert!(wants_ansi(false, ".ans"));
}

#[test]
fn render_line_empty_framed_and_plain() {
    let glyphs = font();
    let map = build_unicode_map(&glyphs);
    assert!(render_line("", &map, &glyphs, 3, true, 0).is_empty());
    assert!(render_line("xyz", &map, &glyphs, 3, false, 0).is_empty());
    let plain = render_line("بب", &map, &glyphs, 3, false, 0);
    assert_eq!(plain.len(), 3);
    let framed = render_line("بب", &map, &glyphs, 3, true, 0);
    assert_eq!(framed.len(), 5);
    assert!(framed[0].starts_with('╔'));
    let framed0 = render_line("بب", &map, &glyphs, 0, true, 0);
    assert_eq!(framed0.len(), 3);
}

#[test]
fn preview_blank_and_text() {
    let glyphs = font();
    let map = build_unicode_map(&glyphs);
    assert!(preview("", &map, &glyphs, 3, false, 0).is_none());
    assert!(preview(" \t\u{00A0}\u{3000}", &map, &glyphs, 3, false, 0).is_none());
    let p = preview(" ب ", &map, &glyphs, 3, false, 0).unwrap();
    assert_eq!(p.len(), 3);
    let p = preview("x", &map, &glyphs, 3, false, 0).unwrap();
    assert!(p.is_empty());
}

#[test]
fn apply_key_edits_and_quits() {
    let mut buf = String::new();
    assert!(apply_key(&mut buf, KeyPress { key: KeyInput::Char('a'), control: false }));
    assert!(apply_key(&mut buf, KeyPress { key: KeyInput::Char('ب'), control: false }));
    assert_eq!(buf, "aب");
    assert!(apply_key(&mut buf, KeyPress { key: KeyInput::Backspace, control: false }));
    assert_eq!(buf, "a");
    assert!(apply_key(&mut buf, KeyPress { key: KeyInput::Char('c'), control: false }));
    assert_eq!(buf, "ac");
    assert!(apply_key(&mut buf, KeyPress { key: KeyInput::Other, control: true }));
    assert_eq!(buf, "ac");
    assert!(!apply_key(&mut buf, KeyPress { key: KeyInput::Char('c'), control: true }));
    assert_eq!(buf, "ac");
    assert!(!apply_key(&mut buf, KeyPress { key: KeyInput::Esc, control: false }));
    assert!(apply_key(&mut buf, KeyPress { key: KeyInput::Enter, control: false }));
    assert_eq!(buf, "");
    assert!(apply_key(&mut buf, KeyPress { key: KeyInput::Backspace, control: false }));
    assert_eq!(buf, "");
}

const FONT_FILE: &str = r#"
height = 8
number = 3

[alif]
unicode = "ا"
connects_next = false
connects_prev = true
extra = 5
isolated = { art = "█" }
initial = { art = "█" }
medial = { art = "█" }
final = { art = "\n█\n█" }

[ba]
unicode = "ب"
connects_next = true
connects_prev = true
isolated.art = "▄▄"
initial.art = "▄"
medial.art = "▄"
final.art = "▄▄"

[broken]
unicode = "x"
connects_next = "yes"
connects_prev = true
isolated.art = "a"
initial.art = "a"
medial.art = "a"
final.art = "a"

[noform]
unicode = "y"
connects_next = true
connects_prev = true
isolated.art = "a"
initial.art = "a"
medial.art = "a"
"#;

fn load_err(text: &str) -> String {
    match load_glyphs(text) {
        Err(e) => e,
        Ok(_) => panic!("expected an error"),
    }
}

#[test]
fn load_glyphs_errors() {
    assert!(load_err("height = ").starts_with("TOML parse error: "));
    assert!(load_err("= 1").starts_with("TOML parse error: "));
    assert_eq!(load_err("[alif]\nunicode = \"ا\""), "'height' field required (integer)");
    assert_eq!(load_err("height = \"8\""), "'height' field required (integer)");
    assert_eq!(load_err(""), "'height' field required (integer)");
    assert_eq!(load_err("[height]\nx = 1"), "'height' field required (integer)");
}

#[test]
fn load_glyphs_reads_height_and_glyphs() {
    let (height, glyphs) = load_glyphs(FONT_FILE).ok().unwrap();
    assert_eq!(height, 8);
    assert_eq!(glyphs.len(), 2);
    let alif = glyphs.get("alif").unwrap();
    assert_eq!(alif.unicode, "ا");
    assert!(!alif.connects_next);
    assert!(alif.connects_prev);
    assert_eq!(alif.final_form.art, "\n█\n█");
    let ba = glyphs.get("ba").unwrap();
    assert_eq!(ba.isolated.art, "▄▄");
    assert!(ba.connects_next);
    assert!(!glyphs.contains_key("broken"));
    assert!(!glyphs.contains_key("noform"));
    assert!(!glyphs.contains_key("height"));
    assert!(!glyphs.contains_key("number"));
}

#[test]
fn rejected_entries_names_what_is_no_glyph() {
    assert_eq!(rejected_entries(FONT_FILE), strings(&["broken", "noform", "number"]));
    assert!(rejected_entries("not toml =").is_empty());
    assert!(rejected_entries("height = 2").is_empty());
}

#[test]
fn load_glyphs_negative_height_wraps() {
    let (height, glyphs) = load_glyphs("height = -1").ok().unwrap();
    assert_eq!(height, usize::MAX);
    assert_eq!(glyphs.len(), 0);
}

#[test]
fn loaded_font_renders() {
    let (height, glyphs) = load_glyphs(FONT_FILE).ok().unwrap();
    let font = Font::new(glyphs);
    let lines = font.render_line("با", height, false, 0);
    assert_eq!(lines.len(), 8);
    assert!(lines[0].starts_with('█'));
}

#[test]
fn glyph_list_rows() {
    let glyphs = font();
    let rows = glyph_list(&glyphs, &strings(&["alif", "ba"]));
    assert_eq!(rows.len(), 4);
    assert_eq!(rows[0], "Ad           Harf   Sağa bağ.  Sola bağ. ");
    assert_eq!(rows[1], "─".repeat(42));
    assert_eq!(rows[2], format!("{:<12} {:<6} {:<10} {:<10}", "alif", "\u{0627}", "hayır", "evet"));
    assert_eq!(rows[3], format!("{:<12} {:<6} {:<10} {:<10}", "ba", "\u{0628}", "evet", "evet"));
    assert_eq!(padded("abcdef", 3), "abcdef");
    assert_eq!(padded("ağ", 4), "ağ  ");
}

#[test]
fn glyph_sheet_lines() {
    let g = glyph4("x", true, false, ["\nab\nc", "B", "M", "F"]);
    let sheet = glyph_sheet("ex", &g, 2);
    assert_eq!(
        sheet,
        strings(&[
            "── ex (x) ──  connects_next=true, connects_prev=false",
            "",
            "  Müstakil:",
            "    |ab|",
            "    |c |",
            "",
            "  Başta   :",
            "    |B|",
            "    | |",
            "",
            "  Ortada  :",
            "    |M|",
            "    | |",
            "",
            "  Sonda   :",
            "    |F|",
            "    | |",
            "",
        ])
    );
}

#[test]
fn validate_reports_inconsistent_widths() {
    let mut glyphs = GlyphTable::new();
    glyphs.insert("even".to_string(), glyph4("a", true, true, ["ab", "abc", "a", "ab"]));
    glyphs.insert("wide".to_string(), glyph4("b", true, true, ["a", "abcde", "a", "a"]));
    let report = validate_glyphs(&glyphs, 2);
    assert_eq!(report.validated, 2);
    assert_eq!(report.warnings, 1);
    assert!(!report.checks[0].widths_inconsistent);
    assert!(report.checks[1].widths_inconsistent);
    assert_eq!(report.checks[1].widths, vec![1, 5, 1, 1]);
    assert_eq!(report.checks[1].line_counts, vec![2, 2, 2, 2]);
    assert!(report.checks[1].height_ok);
    let check = check_glyph(&"x".to_string(), &glyph4("x", false, false, ["", "", "", "\nabc"]), 1);
    assert_eq!(check.widths, vec![0, 0, 0, 3]);
    assert!(check.widths_inconsistent);
}

#[test]
fn text_helpers() {
    assert_eq!(chars_of("aب c"), vec!['a', 'ب', ' ', 'c']);
    assert_eq!(repeat_char('═', 3), "═══");
    assert_eq!(repeat_char('x', 0), "");
    assert!(is_blank(""));
    assert!(is_blank(" \n\t"));
    assert!(!is_blank(" a "));
    assert!(ends_with("file.ans", ".ans"));
    assert!(!ends_with("an", ".ans"));
    assert!(ends_with("x", ""));
}

#[test]
fn sort_strings_orders_by_code_point() {
    let sorted = sort_strings(strings(&["lam", "alif", "ba", "lam_alif", "Ba", "", "ب"]));
    assert_eq!(sorted, strings(&["", "Ba", "alif", "ba", "lam", "lam_alif", "ب"]));
    let mut expected = strings(&["lam", "alif", "ba", "lam_alif", "Ba", "", "ب"]);
    expected.sort();
    assert_eq!(sorted, expected);
    assert!(str_le("ab", "abc"));
    assert!(!str_le("abc", "ab"));
    assert!(str_le("ab", "ab"));
    assert!(str_le("a", "b"));
}

#[test]
fn table_names_in_insertion_order() {
    let glyphs = font();
    assert_eq!(glyphs.names(), strings(&["ba", "alif", "lam"]));
    let copy = glyphs.get("ba").unwrap().clone();
    assert_eq!(copy.unicode, "\u{0628}");
}

#[test]
fn render_line_with_unknown_map_names_and_no_tokens() {
    let glyphs = GlyphTable::new();
    let mut map = UnicodeMap::new();
    map.insert('x', "nope".to_string());
    assert!(render_line("", &map, &glyphs, 3, true, 0).is_empty());
    assert!(render_line("abc ", &map, &glyphs, 3, false, 0).len() == 3);
    assert!(preview("", &map, &glyphs, 3, false, 0).is_none());
    assert!(preview("  ", &map, &glyphs, 3, false, 0).is_none());
}

#[test]
fn skipped_chars_lists_unknown_characters() {
    let glyphs = font();
    let map = build_unicode_map(&glyphs);
    assert_eq!(skipped_chars("hب i", &map, &glyphs), vec!['h', 'i']);
    assert_eq!(skipped_chars("بِسْمِ", &map, &glyphs), vec!['س', 'م']);
    assert!(skipped_chars("", &map, &glyphs).is_empty());
    assert!(skipped_chars("لا ب", &map, &glyphs).is_empty());
}

#[test]
fn trim_and_input_line() {
    assert_eq!(trim("  a b \t"), "a b");
    assert_eq!(trim("\u{3000}ب\u{00A0}"), "ب");
    assert_eq!(trim("   "), "");
    assert_eq!(trim(""), "");
    assert_eq!(input_line("  بسم  "), Some("بسم".to_string()));
    assert_eq!(input_line(" \t "), None);
    assert!(char_is_whitespace('\u{2028}'));
    assert!(char_is_whitespace('\n'));
    assert!(!char_is_whitespace('a'));
    assert!(!char_is_whitespace('\u{200B}'));
}

#[test]
fn add_block_separates_blocks() {
    let mut all: Vec<String> = Vec::new();
    add_block(&mut all, strings(&["a", "b"]), true);
    assert_eq!(all, strings(&["a", "b"]));
    add_block(&mut all, strings(&["c"]), false);
    assert_eq!(all, strings(&["a", "b", "", "c"]));
    add_block(&mut all, Vec::new(), false);
    assert_eq!(all, strings(&["a", "b", "", "c", ""]));
}

#[test]
fn parse_art_again_changes_nothing() {
    for (art, h) in [("\nab\nc", 3), ("", 2), ("x\n\nyz", 4), ("\n\n", 3), ("ab", 0), ("█▄\n•", 2)] {
        let r = parse_art(art, h);
        let again = parse_art(&r.lines.join("\n"), h);
        assert_eq!(again.lines, r.lines);
    }
}

#[test]
fn font_renders_without_preconditions() {
    let font = Font::new(font());
    assert_eq!(font.unicode_map().len(), 3);
    assert_eq!(font.glyphs().len(), 3);
    assert_eq!(font.render_line("بب", 3, false, 0).len(), 3);
    assert!(font.render_line("", 3, true, 0).is_empty());
    assert!(font.preview(" ", 3, false, 0).is_none());
    assert_eq!(font.preview("ب", 3, true, 0).unwrap().len(), 5);
}

#[test]
fn validate_line_counts_are_height() {
    let glyphs = font();
    let report = validate_glyphs(&glyphs, 4);
    for check in &report.checks {
        assert_eq!(check.line_counts, vec![4, 4, 4, 4]);
    }
}
