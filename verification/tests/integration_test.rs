use kukufi::models::{Glyph, GlyphForm, GlyphTable, Position, Token, UnicodeMap};
use kukufi::renderer::{colorize_line, frame_output, parse_art, render};
use kukufi::shaper::{build_unicode_map, determine_positions, tokenize};

const HEIGHT: usize = 3;

fn form(art: &str) -> GlyphForm {
    GlyphForm { art: art.to_string() }
}

fn glyph(unicode: &str, connects_next: bool, connects_prev: bool, art: &str) -> Glyph {
    Glyph {
        unicode: unicode.to_string(),
        connects_next,
        connects_prev,
        isolated: form(&format!("\n{}i", art)),
        initial: form(&format!("\n{}b", art)),
        medial: form(&format!("\n{}m", art)),
        final_form: form(&format!("\n{}f", art)),
    }
}

/// A small font with the connection rules of the Arabic letters it holds.
fn setup() -> (usize, GlyphTable, UnicodeMap) {
    let mut glyphs = GlyphTable::new();
    glyphs.insert("alif".to_string(), glyph("\u{0627}", false, true, "█\n█\n"));
    glyphs.insert("ba".to_string(), glyph("\u{0628}", true, true, "▄▄\n██\n"));
    glyphs.insert("sin".to_string(), glyph("\u{0633}", true, true, "█ █\n███\n"));
    glyphs.insert("mim".to_string(), glyph("\u{0645}", true, true, "▀█\n██\n"));
    glyphs.insert("dal".to_string(), glyph("\u{062F}", false, true, "▀█\n██\n"));
    glyphs.insert("ra".to_string(), glyph("\u{0631}", false, true, " █\n█ \n"));
    glyphs.insert("lam".to_string(), glyph("\u{0644}", true, true, " █\n██\n"));
    glyphs.insert("heh".to_string(), glyph("\u{0647}", true, true, "██\n▀▀\n"));
    glyphs.insert("lam_alif".to_string(), glyph("\u{0644}\u{0627}", false, true, "█ █\n▀█▀\n"));
    glyphs.insert("hamza".to_string(), glyph("\u{0621}", false, false, "▄\n•\n"));
    let unicode_map = build_unicode_map(&glyphs);
    (HEIGHT, glyphs, unicode_map)
}

fn glyph_name(t: &Token) -> &str {
    match t {
        Token::Glyph(name) => name.as_str(),
        Token::Space => panic!("expected a glyph token"),
    }
}

#[test]
fn test_unicode_map_excludes_ligatures() {
    let (_, glyphs, unicode_map) = setup();
    assert_eq!(unicode_map.get('\u{0644}').map(|s| s.as_str()), Some("lam"));
    assert_eq!(unicode_map.get('\u{0627}').map(|s| s.as_str()), Some("alif"));
    assert_eq!(unicode_map.len(), glyphs.len() - 1);
}

#[test]
fn test_lam_alif_ligature_detection() {
    let (_, glyphs, unicode_map) = setup();
    let tokens = tokenize("لا", &unicode_map, &glyphs);
    assert_eq!(tokens.len(), 1);
    match &tokens[0] {
        Token::Glyph(name) => assert_eq!(name, "lam_alif"),
        _ => panic!("Beklenen: lam_alif token"),
    }
}

#[test]
fn test_single_letter_isolated() {
    let (_, glyphs, unicode_map) = setup();
    let tokens = tokenize("ا", &unicode_map, &glyphs);
    assert_eq!(tokens.len(), 1);
    let positions = determine_positions(&tokens, &glyphs);
    assert!(matches!(positions[0], Position::Isolated));
}

#[test]
fn test_non_connecting_breaks_chain() {
    let (_, glyphs, unicode_map) = setup();
    let tokens = tokenize("دار", &unicode_map, &glyphs);
    assert_eq!(tokens.len(), 3);
    let positions = determine_positions(&tokens, &glyphs);
    assert!(matches!(positions[0], Position::Isolated));
    assert!(matches!(positions[1], Position::Isolated));
    assert!(matches!(positions[2], Position::Isolated));
}

#[test]
fn test_connecting_word() {
    let (_, glyphs, unicode_map) = setup();
    let tokens = tokenize("بسم", &unicode_map, &glyphs);
    assert_eq!(tokens.len(), 3);
    let positions = determine_positions(&tokens, &glyphs);
    assert!(matches!(positions[0], Position::Initial));
    assert!(matches!(positions[1], Position::Medial));
    assert!(matches!(positions[2], Position::Final));
}

#[test]
fn test_space_breaks_words() {
    let (_, glyphs, unicode_map) = setup();
    let tokens = tokenize("بب بب", &unicode_map, &glyphs);
    assert_eq!(tokens.len(), 5);
    let positions = determine_positions(&tokens, &glyphs);
    assert!(matches!(positions[0], Position::Initial));
    assert!(matches!(positions[1], Position::Final));
    assert!(matches!(positions[2], Position::Isolated));
    assert!(matches!(positions[3], Position::Initial));
    assert!(matches!(positions[4], Position::Final));
}

#[test]
fn test_normalization_alif_variants() {
    let (_, glyphs, unicode_map) = setup();
    for input in &["إ", "أ", "آ"] {
        let tokens = tokenize(input, &unicode_map, &glyphs);
        assert_eq!(tokens.len(), 1, "Giriş: {}", input);
        match &tokens[0] {
            Token::Glyph(name) => assert_eq!(name, "alif", "Giriş: {}", input),
            _ => panic!("Beklenen: alif token, giriş: {}", input),
        }
    }
}

#[test]
fn test_normalization_strips_diacritics() {
    let (_, glyphs, unicode_map) = setup();
    let tokens = tokenize("بِسْمِ", &unicode_map, &glyphs);
    assert_eq!(tokens.len(), 3);
}

#[test]
fn test_art_height_consistent() {
    let (height, glyphs, _) = setup();
    for i in 0..glyphs.len() {
        let (name, glyph) = glyphs.entry(i);
        for (form_name, form) in [
            ("isolated", &glyph.isolated),
            ("initial", &glyph.initial),
            ("medial", &glyph.medial),
            ("final", &glyph.final_form),
        ] {
            let rendered = parse_art(&form.art, height);
            assert_eq!(
                rendered.lines.len(),
                height,
                "{}:{} yükseklik hatası: {} ≠ {}",
                name,
                form_name,
                rendered.lines.len(),
                height
            );
        }
    }
}

#[test]
fn test_render_output_has_correct_height() {
    let (height, glyphs, unicode_map) = setup();
    let tokens = tokenize("بسم", &unicode_map, &glyphs);
    let positions = determine_positions(&tokens, &glyphs);
    let output = render(&tokens, &positions, &glyphs, height, 0);
    assert_eq!(output.len(), height);
}

#[test]
fn test_empty_input() {
    let (_, glyphs, unicode_map) = setup();
    let tokens = tokenize("", &unicode_map, &glyphs);
    assert!(tokens.is_empty());
}

#[test]
fn test_non_arabic_skipped() {
    let (_, glyphs, unicode_map) = setup();
    let tokens = tokenize("hello", &unicode_map, &glyphs);
    assert!(tokens.is_empty());
}

#[test]
fn test_colorize_line() {
    let input = "█";
    let output = colorize_line(input);
    assert!(output.contains("\x1b[33m"));
    assert!(output.contains("\x1b[0m"));

    let input = "▄▀";
    let output = colorize_line(input);
    assert!(output.contains("\x1b[93m"));
    assert!(output.contains("\x1b[0m"));

    let input = "•";
    let output = colorize_line(input);
    assert!(output.contains("\x1b[36m"));
    assert!(output.contains("\x1b[0m"));

    let input = "█ ▄•▀";
    let output = colorize_line(input);
    assert!(output.contains("\x1b[33m"));
    assert!(output.contains("\x1b[93m"));
    assert!(output.contains("\x1b[36m"));
}

#[test]
fn test_frame_output() {
    let lines: Vec<String> = vec![];
    let framed = frame_output(&lines);
    assert!(framed.len() >= 2);
    assert!(framed[0].starts_with('╔'));
    assert!(framed.last().unwrap().starts_with('╚'));

    let lines = vec!["test".to_string()];
    let framed = frame_output(&lines);
    assert_eq!(framed.len(), 3);
    assert!(framed[0].starts_with('╔'));
    assert!(framed[0].ends_with('╗'));
    assert!(framed[1].contains("test"));
    assert!(framed[1].starts_with('║'));
    assert!(framed[2].starts_with('╚'));

    let lines = vec!["a".to_string(), "b".to_string()];
    let framed = frame_output(&lines);
    assert_eq!(framed.len(), 4);
}

#[test]
fn test_glyph_name_of_tokens_in_reading_order() {
    let (_, glyphs, unicode_map) = setup();
    let tokens = tokenize("بسم", &unicode_map, &glyphs);
    let names: Vec<&str> = tokens.iter().map(glyph_name).collect();
    assert_eq!(names, vec!["ba", "sin", "mim"]);
}
