use vstd::prelude::*;
use vstd::string::StringExecFns;
use crate::models::{Glyph, GlyphForm, GlyphTable, GlyphView, Position, Token, TokenView, UnicodeMap};
use crate::toml_doc::{level_matches, node_level, parse_toml, toml_parsed, TomlLevel, TomlLevelView, TomlNode};
use crate::text::chars_of;

verus! {

/// What normalization makes of one input character: alif variants become a
/// bare alif, teh marbuta becomes heh, diacritics and the tatweel vanish,
/// every other character is kept.
pub open spec fn spec_normalize_char(c: char) -> Option<char> {
    if c == '\u{0622}' || c == '\u{0623}' || c == '\u{0625}' || c == '\u{0671}' {
        Some('\u{0627}')
    } else if c == '\u{0629}' {
        Some('\u{0647}')
    } else if c == '\u{064B}' || c == '\u{064C}' || c == '\u{064D}' || c == '\u{064E}'
        || c == '\u{064F}' || c == '\u{0650}' || c == '\u{0651}' || c == '\u{0652}'
        || c == '\u{0670}' || c == '\u{0640}' {
        None
    } else {
        Some(c)
    }
}

/// Normalize an Arabic character.
pub fn normalize_char(c: char) -> (r: Option<char>)
    ensures
        r == spec_normalize_char(c),
{
    match c {
        '\u{0622}' | '\u{0623}' | '\u{0625}' | '\u{0671}' => Some('\u{0627}'),
        '\u{0629}' => Some('\u{0647}'),
        '\u{064B}' | '\u{064C}' | '\u{064D}' | '\u{064E}' | '\u{064F}' | '\u{0650}'
        | '\u{0651}' | '\u{0652}' | '\u{0670}' => None,
        '\u{0640}' => None,
        _ => Some(c),
    }
}

/// The text after normalization: each character replaced by its normalized
/// form, or dropped where it has none.
pub open spec fn normalize_seq(s: Seq<char>) -> Seq<char>
    decreases s.len(),
{
    if s.len() == 0 {
        Seq::empty()
    } else {
        let r = normalize_seq(s.drop_last());
        match spec_normalize_char(s.last()) {
            Some(c) => r.push(c),
            None => r,
        }
    }
}

/// The name under which the table keeps the lam-alif ligature.
pub open spec fn lam_alif_name() -> Seq<char> {
    seq!['l', 'a', 'm', '_', 'a', 'l', 'i', 'f']
}

/// The tokens that the normalized characters from position `i` on give: a
/// space is a space token; lam followed by alif is the ligature where the
/// table has one; a character of the map is its glyph; any other character
/// gives nothing.
pub open spec fn tokens_from(chars: Seq<char>, i: int, umap: Map<char, Seq<char>>, ligature: bool) -> Seq<TokenView>
    decreases chars.len() - i,
{
    if i < 0 || i >= chars.len() {
        Seq::empty()
    } else if chars[i] == ' ' {
        seq![TokenView::Space] + tokens_from(chars, i + 1, umap, ligature)
    } else if chars[i] == '\u{0644}' && i + 1 < chars.len() && chars[i + 1] == '\u{0627}' && ligature {
        seq![TokenView::Glyph(lam_alif_name())] + tokens_from(chars, i + 2, umap, ligature)
    } else if umap.contains_key(chars[i]) {
        seq![TokenView::Glyph(umap[chars[i]])] + tokens_from(chars, i + 1, umap, ligature)
    } else {
        tokens_from(chars, i + 1, umap, ligature)
    }
}

/// The tokens of an input text.
pub open spec fn spec_tokenize(input: Seq<char>, umap: Map<char, Seq<char>>, glyphs: Map<Seq<char>, GlyphView>) -> Seq<TokenView> {
    tokens_from(normalize_seq(input), 0, umap, glyphs.contains_key(lam_alif_name()))
}

/// Build a Unicode char → glyph name lookup map: every glyph whose `unicode`
/// is exactly one character is found under that character. Where several
/// glyphs share a character, the map names one of them.
pub fn build_unicode_map(glyphs: &GlyphTable) -> (m: UnicodeMap)
    ensures
        forall|c: char| #[trigger] m@.contains_key(c) <==> exists|n: Seq<char>|
            glyphs@.contains_key(n) && #[trigger] glyphs@[n].unicode == seq![c],
        forall|c: char| #[trigger] m@.contains_key(c) ==> glyphs@.contains_key(m@[c])
            && glyphs@[m@[c]].unicode == seq![c],
        names_known(m@, glyphs@),
{
    let mut map = UnicodeMap::new();
    let n = glyphs.len();
    let mut i: usize = 0;
    while i < n
        invariant
            i <= n,
            n == glyphs.count(),
            forall|j: int| 0 <= j < n ==> glyphs@.contains_key(#[trigger] glyphs.name_at(j)),
            forall|c: char| #[trigger] map@.contains_key(c) <==> exists|j: int|
                0 <= j < i && #[trigger] glyphs@[glyphs.name_at(j)].unicode == seq![c],
            forall|c: char| #[trigger] map@.contains_key(c) ==> glyphs@.contains_key(map@[c])
                && glyphs@[map@[c]].unicode == seq![c],
        decreases n - i,
    {
        let (name, glyph) = glyphs.entry(i);
        let chars = chars_of(glyph.unicode.as_str());
        let ghost old_map = map@;
        if chars.len() == 1 {
            let c = chars[0];
            assert(glyph.unicode@ =~= seq![c]);
            map.insert(c, name.clone());
            assert forall|d: char| #[trigger] map@.contains_key(d) <==> exists|j: int|
                0 <= j < i + 1 && #[trigger] glyphs@[glyphs.name_at(j)].unicode == seq![d] by {
                if d != c && map@.contains_key(d) {
                    assert(old_map.contains_key(d));
                }
                if d == c {
                    assert(glyphs@[glyphs.name_at(i as int)].unicode == seq![d]);
                }
            }
        } else {
            assert forall|d: char| #[trigger] map@.contains_key(d) <==> exists|j: int|
                0 <= j < i + 1 && #[trigger] glyphs@[glyphs.name_at(j)].unicode == seq![d] by {
                if exists|j: int| 0 <= j < i + 1 && #[trigger] glyphs@[glyphs.name_at(j)].unicode == seq![d] {
                    let j = choose|j: int| 0 <= j < i + 1 && #[trigger] glyphs@[glyphs.name_at(j)].unicode == seq![d];
                    if j == i {
                        assert(glyph.unicode@.len() == 1);
                    }
                }
            }
        }
        i = i + 1;
    }
    assert forall|c: char| #[trigger] map@.contains_key(c) <==> exists|nm: Seq<char>|
        glyphs@.contains_key(nm) && #[trigger] glyphs@[nm].unicode == seq![c] by {
        if map@.contains_key(c) {
            let j = choose|j: int| 0 <= j < i && #[trigger] glyphs@[glyphs.name_at(j)].unicode == seq![c];
            assert(glyphs@.contains_key(glyphs.name_at(j)));
        }
        if exists|nm: Seq<char>| glyphs@.contains_key(nm) && #[trigger] glyphs@[nm].unicode == seq![c] {
            let nm = choose|nm: Seq<char>| glyphs@.contains_key(nm) && #[trigger] glyphs@[nm].unicode == seq![c];
            let j = choose|j: int| 0 <= j < n && #[trigger] glyphs.name_at(j) == nm;
            assert(glyphs@[glyphs.name_at(j)].unicode == seq![c]);
        }
    }
    map
}

/// The normalized characters of `input`.
fn normalized_chars(input: &str) -> (r: Vec<char>)
    ensures
        r@ == normalize_seq(input@),
{
    let raw = chars_of(input);
    let mut out: Vec<char> = Vec::new();
    let mut i: usize = 0;
    while i < raw.len()
        invariant
            i <= raw.len(),
            raw@ == input@,
            out@ == normalize_seq(raw@.take(i as int)),
        decreases raw.len() - i,
    {
        assert(raw@.take(i + 1).drop_last() =~= raw@.take(i as int));
        if let Some(c) = normalize_char(raw[i]) {
            out.push(c);
        }
        i = i + 1;
    }
    assert(raw@.take(raw.len() as int) =~= raw@);
    out
}

/// Tokenize input text. Characters that the map does not know are skipped.
pub fn tokenize(input: &str, unicode_map: &UnicodeMap, glyphs: &GlyphTable) -> (r: Vec<Token>)
    ensures
        token_views(r@) == spec_tokenize(input@, unicode_map@, glyphs@),
{
    let chars = normalized_chars(input);
    let ghost ligature = glyphs@.contains_key(lam_alif_name());
    let ghost all = tokens_from(chars@, 0, unicode_map@, ligature);
    let mut tokens: Vec<Token> = Vec::new();
    let mut i: usize = 0;
    proof {
        reveal_strlit("lam_alif");
    }
    while i < chars.len()
        invariant
            i <= chars.len(),
            ligature == glyphs@.contains_key(lam_alif_name()),
            "lam_alif"@ == lam_alif_name(),
            all == tokens_from(chars@, 0, unicode_map@, ligature),
            token_views(tokens@) + tokens_from(chars@, i as int, unicode_map@, ligature) == all,
        decreases chars.len() - i,
    {
        let ghost before = token_views(tokens@);
        let c = chars[i];
        if c == ' ' {
            tokens.push(Token::Space);
            assert(token_views(tokens@) =~= before + seq![TokenView::Space]);
            i = i + 1;
            continue;
        }
        if c == '\u{0644}' && i + 1 < chars.len() && chars[i + 1] == '\u{0627}' && glyphs.contains_key("lam_alif") {
            tokens.push(Token::Glyph(String::from_str("lam_alif")));
            assert(token_views(tokens@) =~= before + seq![TokenView::Glyph(lam_alif_name())]);
            i = i + 2;
            continue;
        }
        match unicode_map.get(c) {
            Some(name) => {
                tokens.push(Token::Glyph(name.clone()));
                assert(token_views(tokens@) =~= before + seq![TokenView::Glyph(unicode_map@[c])]);
            },
            None => {},
        }
        i = i + 1;
    }
    assert(token_views(tokens@) =~= all);
    tokens
}

/// The key under which the file gives the art height.
pub open spec fn height_key() -> Seq<char> {
    seq!['h', 'e', 'i', 'g', 'h', 't']
}

/// The key path of a key of the top-level table.
pub open spec fn top_path(key: Seq<char>) -> Seq<Seq<char>> {
    Seq::<Seq<char>>::empty().push(key)
}

/// The value under `key` in the table at `path` of the parsed document,
/// if there is a table there and it has that key.
pub open spec fn field(doc: Seq<char>, path: Seq<Seq<char>>, key: Seq<char>) -> Option<TomlLevelView> {
    match toml_parsed(doc, path) {
        Ok(TomlLevelView::Table(keys)) => if keys.contains(key) {
            match toml_parsed(doc, path.push(key)) {
                Ok(v) => Some(v),
                Err(_) => None,
            }
        } else {
            None
        },
        _ => None,
    }
}

/// The string under `key` in the table at `path`, if it is a string.
pub open spec fn text_field(doc: Seq<char>, path: Seq<Seq<char>>, key: Seq<char>) -> Option<Seq<char>> {
    match field(doc, path, key) {
        Some(TomlLevelView::Text(t)) => Some(t),
        _ => None,
    }
}

/// The boolean under `key` in the table at `path`, if it is a boolean.
pub open spec fn bool_field(doc: Seq<char>, path: Seq<Seq<char>>, key: Seq<char>) -> Option<bool> {
    match field(doc, path, key) {
        Some(TomlLevelView::Boolean(b)) => Some(b),
        _ => None,
    }
}

/// The `art` string of the form table under `key` in the table at `path`.
pub open spec fn form_field(doc: Seq<char>, path: Seq<Seq<char>>, key: Seq<char>) -> Option<Seq<char>> {
    match field(doc, path, key) {
        Some(TomlLevelView::Table(_)) => text_field(doc, path.push(key), "art"@),
        _ => None,
    }
}

/// The glyph that the table at `path` describes: a string `unicode`,
/// booleans `connects_next` and `connects_prev`, and the tables `isolated`,
/// `initial`, `medial` and `final`, each with a string `art`; other keys
/// are ignored. `None` where any of these is missing or of another type.
pub open spec fn glyph_at(doc: Seq<char>, path: Seq<Seq<char>>) -> Option<GlyphView> {
    match (
        text_field(doc, path, "unicode"@),
        bool_field(doc, path, "connects_next"@),
        bool_field(doc, path, "connects_prev"@),
        form_field(doc, path, "isolated"@),
        form_field(doc, path, "initial"@),
        form_field(doc, path, "medial"@),
        form_field(doc, path, "final"@),
    ) {
        (Some(u), Some(n), Some(p), Some(i), Some(b), Some(m), Some(f)) => Some(GlyphView {
            unicode: u,
            connects_next: n,
            connects_prev: p,
            isolated: i,
            initial: b,
            medial: m,
            final_form: f,
        }),
        _ => None,
    }
}

/// The glyphs of the file: each top-level key other than `height` whose value describes a glyph.
pub open spec fn file_glyphs(doc: Seq<char>, keys: Seq<Seq<char>>) -> Map<Seq<char>, GlyphView> {
    Map::new(
        |k: Seq<char>| keys.contains(k) && k != height_key() && glyph_at(doc, top_path(k)) is Some,
        |k: Seq<char>| glyph_at(doc, top_path(k))->Some_0,
    )
}

/// The message for text that is not TOML.
pub open spec fn parse_error_message(detail: Seq<char>) -> Seq<char> {
    "TOML parse error: "@ + detail
}

/// What loading makes of the text of a glyph file: the art height (the
/// integer under `height`, as `usize`) and the glyphs by name, or the
/// message of the first thing that is wrong.
pub open spec fn spec_load_glyphs(content: Seq<char>) -> Result<(usize, Map<Seq<char>, GlyphView>), Seq<char>> {
    match toml_parsed(content, Seq::empty()) {
        Err(detail) => Err(parse_error_message(detail)),
        Ok(TomlLevelView::Table(keys)) => match field(content, Seq::empty(), height_key()) {
            Some(TomlLevelView::Integer(h)) => Ok((h as usize, file_glyphs(content, keys))),
            _ => Err("'height' field required (integer)"@),
        },
        Ok(_) => Err("TOML must be a top-level table"@),
    }
}

/// The entries of a table node match the table at `path`.
pub open spec fn entries_match(entries: Seq<(String, TomlNode)>, doc: Seq<char>, path: Seq<Seq<char>>, keys: Seq<Seq<char>>) -> bool {
    &&& entries.len() == keys.len()
    &&& forall|i: int| 0 <= i < keys.len() ==> {
        &&& (#[trigger] entries[i]).0@ == keys[i]
        &&& entries[i].1.doc() == doc
        &&& entries[i].1.path() == path.push(keys[i])
        &&& toml_parsed(doc, path.push(keys[i])) is Ok
    }
}

/// Whether `s` is the key `height`.
fn is_height_key(s: &String) -> (r: bool)
    ensures
        r == (s@ == height_key()),
{
    proof {
        reveal_strlit("height");
    }
    let key = String::from_str("height");
    assert(key@ =~= height_key());
    *s == key
}

/// Position of the entry under `key`, if there is one.
fn find_key(entries: &Vec<(String, TomlNode)>, key: &str) -> (r: Option<usize>)
    ensures
        match r {
            Some(i) => i < entries.len() && entries@[i as int].0@ == key@,
            None => forall|i: int| 0 <= i < entries.len() ==> (#[trigger] entries@[i]).0@ != key@,
        },
{
    let k = String::from_str(key);
    let mut i: usize = 0;
    while i < entries.len()
        invariant
            i <= entries.len(),
            k@ == key@,
            forall|j: int| 0 <= j < i ==> (#[trigger] entries@[j]).0@ != key@,
        decreases entries.len() - i,
    {
        if entries[i].0 == k {
            return Some(i);
        }
        i = i + 1;
    }
    None
}

/// The value under `key` in a table node's entries.
fn get_field(entries: &Vec<(String, TomlNode)>, key: &str, Ghost(doc): Ghost<Seq<char>>, Ghost(path): Ghost<Seq<Seq<char>>>, Ghost(keys): Ghost<Seq<Seq<char>>>) -> (r: Option<TomlLevel>)
    requires
        toml_parsed(doc, path) == Ok::<TomlLevelView, Seq<char>>(TomlLevelView::Table(keys)),
        entries_match(entries@, doc, path, keys),
    ensures
        match (r, field(doc, path, key@)) {
            (Some(level), Some(v)) => level_matches(level, doc, path.push(key@), v),
            (None, None) => true,
            _ => false,
        },
{
    match find_key(entries, key) {
        Some(i) => {
            assert(entries@[i as int].0@ == keys[i as int]);
            assert(keys.contains(key@));
            Some(node_level(&entries[i].1))
        },
        None => {
            assert(!keys.contains(key@)) by {
                if keys.contains(key@) {
                    let j = choose|j: int| 0 <= j < keys.len() && keys[j] == key@;
                    assert(entries@[j].0@ == keys[j]);
                }
            }
            None
        },
    }
}

/// The string under `key` in a table node's entries, if it is a string.
fn get_text(entries: &Vec<(String, TomlNode)>, key: &str, Ghost(doc): Ghost<Seq<char>>, Ghost(path): Ghost<Seq<Seq<char>>>, Ghost(keys): Ghost<Seq<Seq<char>>>) -> (r: Option<String>)
    requires
        toml_parsed(doc, path) == Ok::<TomlLevelView, Seq<char>>(TomlLevelView::Table(keys)),
        entries_match(entries@, doc, path, keys),
    ensures
        match (r, text_field(doc, path, key@)) {
            (Some(s), Some(t)) => s@ == t,
            (None, None) => true,
            _ => false,
        },
{
    match get_field(entries, key, Ghost(doc), Ghost(path), Ghost(keys)) {
        Some(TomlLevel::Text(s)) => Some(s),
        _ => None,
    }
}

/// The boolean under `key` in a table node's entries, if it is a boolean.
fn get_bool(entries: &Vec<(String, TomlNode)>, key: &str, Ghost(doc): Ghost<Seq<char>>, Ghost(path): Ghost<Seq<Seq<char>>>, Ghost(keys): Ghost<Seq<Seq<char>>>) -> (r: Option<bool>)
    requires
        toml_parsed(doc, path) == Ok::<TomlLevelView, Seq<char>>(TomlLevelView::Table(keys)),
        entries_match(entries@, doc, path, keys),
    ensures
        r == bool_field(doc, path, key@),
{
    match get_field(entries, key, Ghost(doc), Ghost(path), Ghost(keys)) {
        Some(TomlLevel::Boolean(b)) => Some(b),
        _ => None,
    }
}

/// The form under `key` in a table node's entries, if it is a table with a string `art`.
fn get_form(entries: &Vec<(String, TomlNode)>, key: &str, Ghost(doc): Ghost<Seq<char>>, Ghost(path): Ghost<Seq<Seq<char>>>, Ghost(keys): Ghost<Seq<Seq<char>>>) -> (r: Option<GlyphForm>)
    requires
        toml_parsed(doc, path) == Ok::<TomlLevelView, Seq<char>>(TomlLevelView::Table(keys)),
        entries_match(entries@, doc, path, keys),
    ensures
        match (r, form_field(doc, path, key@)) {
            (Some(f), Some(t)) => f@ == t,
            (None, None) => true,
            _ => false,
        },
{
    proof {
        reveal_strlit("art");
    }
    match get_field(entries, key, Ghost(doc), Ghost(path), Ghost(keys)) {
        Some(TomlLevel::Table(inner)) => {
            let ghost sub = path.push(key@);
            let ghost inner_keys = toml_parsed(doc, sub)->Ok_0->Table_0;
            assert(entries_match(inner@, doc, sub, inner_keys));
            match get_text(&inner, "art", Ghost(doc), Ghost(sub), Ghost(inner_keys)) {
                Some(art) => Some(GlyphForm { art }),
                None => None,
            }
        },
        _ => None,
    }
}

/// The glyph that a node describes, as `glyph_at` says.
fn decode_glyph(n: &TomlNode) -> (r: Option<Glyph>)
    requires
        toml_parsed(n.doc(), n.path()) is Ok,
    ensures
        match (r, glyph_at(n.doc(), n.path())) {
            (Some(g), Some(v)) => g@ == v,
            (None, None) => true,
            _ => false,
        },
{
    let ghost doc = n.doc();
    let ghost path = n.path();
    let entries = match node_level(n) {
        TomlLevel::Table(entries) => entries,
        _ => {
            return None;
        },
    };
    let ghost keys = toml_parsed(doc, path)->Ok_0->Table_0;
    assert(entries_match(entries@, doc, path, keys));
    let unicode = get_text(&entries, "unicode", Ghost(doc), Ghost(path), Ghost(keys));
    let connects_next = get_bool(&entries, "connects_next", Ghost(doc), Ghost(path), Ghost(keys));
    let connects_prev = get_bool(&entries, "connects_prev", Ghost(doc), Ghost(path), Ghost(keys));
    let isolated = get_form(&entries, "isolated", Ghost(doc), Ghost(path), Ghost(keys));
    let initial = get_form(&entries, "initial", Ghost(doc), Ghost(path), Ghost(keys));
    let medial = get_form(&entries, "medial", Ghost(doc), Ghost(path), Ghost(keys));
    let final_form = get_form(&entries, "final", Ghost(doc), Ghost(path), Ghost(keys));
    match (unicode, connects_next, connects_prev, isolated, initial, medial, final_form) {
        (Some(unicode), Some(connects_next), Some(connects_prev), Some(isolated), Some(initial), Some(medial), Some(final_form)) => {
            Some(Glyph { unicode, connects_next, connects_prev, isolated, initial, medial, final_form })
        },
        _ => None,
    }
}

/// Load glyphs from TOML content. Returns (height, glyph table).
pub fn load_glyphs(content: &str) -> (r: Result<(usize, GlyphTable), String>)
    ensures
        match (r, spec_load_glyphs(content@)) {
            (Ok((h, t)), Ok((sh, sm))) => h == sh && t@ == sm,
            (Err(e), Err(se)) => e@ == se,
            _ => false,
        },
{
    let root = match parse_toml(content) {
        Ok(n) => n,
        Err(detail) => {
            let mut msg = String::from_str("TOML parse error: ");
            msg.append(detail.as_str());
            return Err(msg);
        },
    };
    let ghost doc = content@;
    let ghost top = Seq::<Seq<char>>::empty();
    let entries = match node_level(&root) {
        TomlLevel::Table(entries) => entries,
        _ => {
            return Err(String::from_str("TOML must be a top-level table"));
        },
    };
    let ghost keys = toml_parsed(doc, top)->Ok_0->Table_0;
    assert(entries_match(entries@, doc, top, keys));
    proof {
        reveal_strlit("height");
    }
    assert("height"@ =~= height_key());
    let height = match get_field(&entries, "height", Ghost(doc), Ghost(top), Ghost(keys)) {
        Some(TomlLevel::Integer(h)) => #[verifier::truncate] (h as usize),
        _ => {
            return Err(String::from_str("'height' field required (integer)"));
        },
    };
    let mut glyphs = GlyphTable::new();
    let mut i: usize = 0;
    while i < entries.len()
        invariant
            i <= entries.len(),
            top == Seq::<Seq<char>>::empty(),
            entries_match(entries@, doc, top, keys),
            toml_parsed(doc, top) == Ok::<TomlLevelView, Seq<char>>(TomlLevelView::Table(keys)),
            glyphs@ == file_glyphs(doc, keys.take(i as int)),
        decreases entries.len() - i,
    {
        let ghost k = keys[i as int];
        assert(entries@[i as int].0@ == k);
        assert(top.push(k) == top_path(k));
        let ghost before = glyphs@;
        let ghost old_map = file_glyphs(doc, keys.take(i as int));
        let ghost new_map = file_glyphs(doc, keys.take(i + 1));
        let skip = is_height_key(&entries[i].0);
        let mut added = false;
        if !skip {
            let decoded = decode_glyph(&entries[i].1);
            match decoded {
                Some(g) => {
                    glyphs.insert(entries[i].0.clone(), g);
                    added = true;
                },
                None => {},
            }
        }
        assert(added ==> glyphs@ == before.insert(k, glyph_at(doc, top_path(k))->Some_0)
            && glyph_at(doc, top_path(k)) is Some && k != height_key());
        assert(!added ==> glyphs@ == before && (k == height_key() || glyph_at(doc, top_path(k)) is None));
        assert(glyphs@ =~= new_map) by {
            assert(keys.take(i + 1) =~= keys.take(i as int).push(k));
            assert forall|x: Seq<char>| keys.take(i + 1).contains(x) <==> (keys.take(i as int).contains(x) || x == k) by {
                if keys.take(i + 1).contains(x) {
                    let j = choose|j: int| 0 <= j < i + 1 && #[trigger] keys.take(i + 1)[j] == x;
                    if j < i {
                        assert(keys.take(i as int)[j] == x);
                    }
                }
                if keys.take(i as int).contains(x) {
                    let j = choose|j: int| 0 <= j < i && #[trigger] keys.take(i as int)[j] == x;
                    assert(keys.take(i + 1)[j] == x);
                }
                if x == k {
                    assert(keys.take(i + 1)[i as int] == x);
                }
            }
            assert(before == old_map);
            assert forall|x: Seq<char>| #[trigger] new_map.contains_key(x) <==> glyphs@.contains_key(x) by {
                assert(keys.take(i + 1).contains(x) <==> (keys.take(i as int).contains(x) || x == k));
                assert(new_map.contains_key(x) == (keys.take(i + 1).contains(x) && x != height_key() && glyph_at(doc, top_path(x)) is Some));
                assert(old_map.contains_key(x) == (keys.take(i as int).contains(x) && x != height_key() && glyph_at(doc, top_path(x)) is Some));
                if x != k {
                    assert(new_map.contains_key(x) == old_map.contains_key(x));
                }
            }
            assert forall|x: Seq<char>| new_map.contains_key(x) implies #[trigger] new_map[x] == glyphs@[x] by {
                if x != k {
                    assert(old_map.contains_key(x));
                }
            }
        }
        i = i + 1;
    }
    assert(keys.take(entries.len() as int) =~= keys);
    Ok((height, glyphs))
}

/// The top-level keys, other than `height`, whose values describe no glyph.
pub open spec fn rejected_keys(doc: Seq<char>, keys: Seq<Seq<char>>) -> Seq<Seq<char>>
    decreases keys.len(),
{
    if keys.len() == 0 {
        Seq::empty()
    } else {
        let r = rejected_keys(doc, keys.drop_last());
        let k = keys.last();
        if k != height_key() && glyph_at(doc, top_path(k)) is None {
            r.push(k)
        } else {
            r
        }
    }
}

/// The entries of a glyph file that loading skips because they describe no
/// glyph, in the parser's order; none where the text is not a TOML table.
pub open spec fn spec_rejected_entries(content: Seq<char>) -> Seq<Seq<char>> {
    match toml_parsed(content, Seq::empty()) {
        Ok(TomlLevelView::Table(keys)) => rejected_keys(content, keys),
        _ => Seq::empty(),
    }
}

/// The names of the entries of a glyph file that loading skips because
/// they describe no glyph, for a warning about each.
pub fn rejected_entries(content: &str) -> (r: Vec<String>)
    ensures
        r@.map_values(|s: String| s@) == spec_rejected_entries(content@),
{
    let root = match parse_toml(content) {
        Ok(n) => n,
        Err(_) => {
            return Vec::new();
        },
    };
    let ghost doc = content@;
    let ghost top = Seq::<Seq<char>>::empty();
    let entries = match node_level(&root) {
        TomlLevel::Table(entries) => entries,
        _ => {
            return Vec::new();
        },
    };
    let ghost keys = toml_parsed(doc, top)->Ok_0->Table_0;
    assert(entries_match(entries@, doc, top, keys));
    let mut out: Vec<String> = Vec::new();
    let mut i: usize = 0;
    while i < entries.len()
        invariant
            i <= entries.len(),
            top == Seq::<Seq<char>>::empty(),
            entries_match(entries@, doc, top, keys),
            out@.map_values(|s: String| s@) == rejected_keys(doc, keys.take(i as int)),
        decreases entries.len() - i,
    {
        let ghost k = keys[i as int];
        assert(entries@[i as int].0@ == k);
        assert(top.push(k) == top_path(k));
        assert(keys.take(i + 1).drop_last() =~= keys.take(i as int));
        let ghost before = out@.map_values(|s: String| s@);
        if !is_height_key(&entries[i].0) {
            if decode_glyph(&entries[i].1).is_none() {
                out.push(entries[i].0.clone());
                assert(out@.map_values(|s: String| s@) =~= before.push(k));
            }
        }
        i = i + 1;
    }
    assert(keys.take(entries.len() as int) =~= keys);
    out
}

/// The normalized characters from position `i` on that tokenizing skips:
/// those that are neither a space, nor part of a lam-alif ligature, nor in the map.
pub open spec fn skipped_from(chars: Seq<char>, i: int, umap: Map<char, Seq<char>>, ligature: bool) -> Seq<char>
    decreases chars.len() - i,
{
    if i < 0 || i >= chars.len() {
        Seq::empty()
    } else if chars[i] == ' ' {
        skipped_from(chars, i + 1, umap, ligature)
    } else if chars[i] == '\u{0644}' && i + 1 < chars.len() && chars[i + 1] == '\u{0627}' && ligature {
        skipped_from(chars, i + 2, umap, ligature)
    } else if umap.contains_key(chars[i]) {
        skipped_from(chars, i + 1, umap, ligature)
    } else {
        seq![chars[i]] + skipped_from(chars, i + 1, umap, ligature)
    }
}

/// The characters of an input text that tokenizing skips, in order.
pub open spec fn spec_skipped(input: Seq<char>, umap: Map<char, Seq<char>>, glyphs: Map<Seq<char>, GlyphView>) -> Seq<char> {
    skipped_from(normalize_seq(input), 0, umap, glyphs.contains_key(lam_alif_name()))
}

/// The characters that `tokenize` skips as unknown, in input order, for a
/// warning about each.
pub fn skipped_chars(input: &str, unicode_map: &UnicodeMap, glyphs: &GlyphTable) -> (r: Vec<char>)
    ensures
        r@ == spec_skipped(input@, unicode_map@, glyphs@),
{
    let chars = normalized_chars(input);
    let ghost ligature = glyphs@.contains_key(lam_alif_name());
    let ghost all = skipped_from(chars@, 0, unicode_map@, ligature);
    let mut skipped: Vec<char> = Vec::new();
    let mut i: usize = 0;
    proof {
        reveal_strlit("lam_alif");
    }
    while i < chars.len()
        invariant
            i <= chars.len(),
            ligature == glyphs@.contains_key(lam_alif_name()),
            "lam_alif"@ == lam_alif_name(),
            all == skipped_from(chars@, 0, unicode_map@, ligature),
            skipped@ + skipped_from(chars@, i as int, unicode_map@, ligature) == all,
        decreases chars.len() - i,
    {
        let ghost before = skipped@;
        let c = chars[i];
        if c == ' ' {
            i = i + 1;
            continue;
        }
        if c == '\u{0644}' && i + 1 < chars.len() && chars[i + 1] == '\u{0627}' && glyphs.contains_key("lam_alif") {
            i = i + 2;
            continue;
        }
        if unicode_map.get(c).is_none() {
            skipped.push(c);
            assert(skipped@ =~= before + seq![c]);
        }
        i = i + 1;
    }
    assert(skipped@ =~= all);
    skipped
}

/// The tokens as mathematical values.
pub open spec fn token_views(tokens: Seq<Token>) -> Seq<TokenView> {
    tokens.map_values(|t: Token| t@)
}

/// The glyph that token `i` stands for, if it is a glyph the table has.
pub open spec fn glyph_of(tokens: Seq<TokenView>, glyphs: Map<Seq<char>, GlyphView>, i: int) -> Option<GlyphView> {
    match tokens[i] {
        TokenView::Glyph(name) => if glyphs.contains_key(name) {
            Some(glyphs[name])
        } else {
            None
        },
        TokenView::Space => None,
    }
}

/// Whether a glyph `a` followed by a glyph `b` join: `a` connects to what
/// follows it and `b` to what precedes it.
pub open spec fn joins(a: Option<GlyphView>, b: Option<GlyphView>) -> bool {
    &&& a is Some
    &&& b is Some
    &&& a->0.connects_next
    &&& b->0.connects_prev
}

/// Whether token `i` joins the token before it.
pub open spec fn joined_to_prev(tokens: Seq<TokenView>, glyphs: Map<Seq<char>, GlyphView>, i: int) -> bool {
    i > 0 && joins(glyph_of(tokens, glyphs, i - 1), glyph_of(tokens, glyphs, i))
}

/// Whether token `i` joins the token after it.
pub open spec fn joined_to_next(tokens: Seq<TokenView>, glyphs: Map<Seq<char>, GlyphView>, i: int) -> bool {
    i + 1 < tokens.len() && joins(glyph_of(tokens, glyphs, i), glyph_of(tokens, glyphs, i + 1))
}

/// The positional form of token `i`: a space is isolated; a glyph takes the
/// form that its joins to either side call for.
pub open spec fn position_at(tokens: Seq<TokenView>, glyphs: Map<Seq<char>, GlyphView>, i: int) -> Position {
    match tokens[i] {
        TokenView::Space => Position::Isolated,
        TokenView::Glyph(_) => {
            let p = joined_to_prev(tokens, glyphs, i);
            let n = joined_to_next(tokens, glyphs, i);
            if !p && !n {
                Position::Isolated
            } else if !p && n {
                Position::Initial
            } else if p && n {
                Position::Medial
            } else {
                Position::Final
            }
        },
    }
}

/// Every glyph token names a glyph of the table.
pub open spec fn glyphs_known(tokens: Seq<TokenView>, glyphs: Map<Seq<char>, GlyphView>) -> bool {
    forall|i: int| 0 <= i < tokens.len() ==> match #[trigger] tokens[i] {
        TokenView::Glyph(name) => glyphs.contains_key(name),
        TokenView::Space => true,
    }
}

/// The glyph behind an optional reference, as a value.
pub open spec fn opt_glyph_view(o: Option<&Glyph>) -> Option<GlyphView> {
    match o {
        Some(g) => Some(g@),
        None => None,
    }
}

/// Determine the positional form for each token based on neighbor connection rules.
pub fn determine_positions(tokens: &[Token], glyphs: &GlyphTable) -> (r: Vec<Position>)
    requires
        glyphs_known(token_views(tokens@), glyphs@),
    ensures
        r.len() == tokens.len(),
        forall|i: int| 0 <= i < tokens.len() ==> #[trigger] r@[i] == position_at(token_views(tokens@), glyphs@, i),
{
    let ghost tv = token_views(tokens@);
    let mut glyph_info: Vec<Option<&Glyph>> = Vec::new();
    let mut k: usize = 0;
    while k < tokens.len()
        invariant
            k <= tokens.len(),
            tv == token_views(tokens@),
            glyph_info.len() == k,
            forall|j: int| 0 <= j < k ==> opt_glyph_view(#[trigger] glyph_info@[j]) == glyph_of(tv, glyphs@, j),
        decreases tokens.len() - k,
    {
        let info = match &tokens[k] {
            Token::Glyph(name) => glyphs.get(name.as_str()),
            Token::Space => None,
        };
        glyph_info.push(info);
        k = k + 1;
    }

    let mut positions: Vec<Position> = Vec::new();
    let mut idx: usize = 0;
    while idx < tokens.len()
        invariant
            idx <= tokens.len(),
            tv == token_views(tokens@),
            glyphs_known(tv, glyphs@),
            glyph_info.len() == tokens.len(),
            forall|j: int| 0 <= j < tokens.len() ==> opt_glyph_view(#[trigger] glyph_info@[j]) == glyph_of(tv, glyphs@, j),
            positions.len() == idx,
            forall|j: int| 0 <= j < idx ==> #[trigger] positions@[j] == position_at(tv, glyphs@, j),
        decreases tokens.len() - idx,
    {
        let pos = match &tokens[idx] {
            Token::Space => Position::Isolated,
            Token::Glyph(_) => {
                assert(tv[idx as int] == tokens@[idx as int]@);
                let current = glyph_info[idx].unwrap();
                let connected_to_prev = idx > 0 && match glyph_info[idx - 1] {
                    Some(prev) => prev.connects_next && current.connects_prev,
                    None => false,
                };
                let connected_to_next = idx + 1 < tokens.len() && match glyph_info[idx + 1] {
                    Some(next) => current.connects_next && next.connects_prev,
                    None => false,
                };
                match (connected_to_prev, connected_to_next) {
                    (false, false) => Position::Isolated,
                    (false, true) => Position::Initial,
                    (true, true) => Position::Medial,
                    (true, false) => Position::Final,
                }
            },
        };
        positions.push(pos);
        idx = idx + 1;
    }
    positions
}

/// Every glyph name the map gives is a glyph of the table.
pub open spec fn names_known(umap: Map<char, Seq<char>>, glyphs: Map<Seq<char>, GlyphView>) -> bool {
    forall|c: char| #[trigger] umap.contains_key(c) ==> glyphs.contains_key(umap[c])
}

/// Tokens made with a map whose names the table knows name only glyphs of the table.
pub proof fn lemma_tokens_known(chars: Seq<char>, i: int, umap: Map<char, Seq<char>>, glyphs: Map<Seq<char>, GlyphView>)
    requires
        names_known(umap, glyphs),
    ensures
        glyphs_known(tokens_from(chars, i, umap, glyphs.contains_key(lam_alif_name())), glyphs),
    decreases chars.len() - i,
{
    let lig = glyphs.contains_key(lam_alif_name());
    let t = tokens_from(chars, i, umap, lig);
    if 0 <= i < chars.len() {
        let next: int = if chars[i] != ' ' && chars[i] == '\u{0644}' && i + 1 < chars.len() && chars[i + 1] == '\u{0627}' && lig { i + 2 } else { i + 1 };
        lemma_tokens_known(chars, next, umap, glyphs);
        let rest = tokens_from(chars, next, umap, lig);
        assert forall|k: int| 0 <= k < t.len() implies match #[trigger] t[k] {
            TokenView::Glyph(name) => glyphs.contains_key(name),
            TokenView::Space => true,
        } by {
            if t.len() > rest.len() && k >= 1 {
                assert(t[k] == rest[k - 1]);
            } else if t.len() == rest.len() {
                assert(t[k] == rest[k]);
            }
        }
    }
}

/// Whether a position joins the letter after it.
pub open spec fn joins_forward(p: Position) -> bool {
    p == Position::Initial || p == Position::Medial
}

/// Whether a position joins the letter before it.
pub open spec fn joins_backward(p: Position) -> bool {
    p == Position::Medial || p == Position::Final
}

/// Neighbouring tokens agree on their join: the first takes a form that joins
/// forward exactly when the second takes one that joins backward.
pub proof fn lemma_neighbours_agree(tokens: Seq<TokenView>, glyphs: Map<Seq<char>, GlyphView>, i: int)
    requires
        glyphs_known(tokens, glyphs),
        0 <= i,
        i + 1 < tokens.len(),
    ensures
        joins_forward(position_at(tokens, glyphs, i)) == joins_backward(position_at(tokens, glyphs, i + 1)),
{
    assert(match tokens[i] { TokenView::Glyph(name) => glyphs.contains_key(name), TokenView::Space => true });
    assert(match tokens[i + 1] { TokenView::Glyph(name) => glyphs.contains_key(name), TokenView::Space => true });
}

/// A space breaks words: it stands isolated, the token before it does not
/// join forward, and the token after it does not join backward.
pub proof fn lemma_space_breaks_words(tokens: Seq<TokenView>, glyphs: Map<Seq<char>, GlyphView>, i: int)
    requires
        glyphs_known(tokens, glyphs),
        0 <= i < tokens.len(),
        tokens[i] is Space,
    ensures
        position_at(tokens, glyphs, i) == Position::Isolated,
        i > 0 ==> !joins_forward(position_at(tokens, glyphs, i - 1)),
        i + 1 < tokens.len() ==> !joins_backward(position_at(tokens, glyphs, i + 1)),
{
    if i > 0 {
        lemma_neighbours_agree(tokens, glyphs, i - 1);
    }
    if i + 1 < tokens.len() {
        lemma_neighbours_agree(tokens, glyphs, i);
    }
}

/// A letter that does not connect to what follows breaks the chain after it:
/// it does not join forward, and its successor does not join backward.
pub proof fn lemma_non_connecting_breaks_chain(tokens: Seq<TokenView>, glyphs: Map<Seq<char>, GlyphView>, i: int)
    requires
        glyphs_known(tokens, glyphs),
        0 <= i < tokens.len(),
        tokens[i] matches TokenView::Glyph(name) && !glyphs[name].connects_next,
    ensures
        !joins_forward(position_at(tokens, glyphs, i)),
        i + 1 < tokens.len() ==> !joins_backward(position_at(tokens, glyphs, i + 1)),
{
    if i + 1 < tokens.len() {
        lemma_neighbours_agree(tokens, glyphs, i);
    }
}

/// Normalizing an already normalized character changes nothing.
pub proof fn lemma_normalize_idempotent(c: char)
    ensures
        spec_normalize_char(c) matches Some(d) ==> spec_normalize_char(d) == Some(d),
{
}

/// The number of spaces in a text.
pub open spec fn count_spaces(s: Seq<char>) -> nat
    decreases s.len(),
{
    if s.len() == 0 {
        0
    } else {
        count_spaces(s.drop_last()) + if s.last() == ' ' { 1nat } else { 0nat }
    }
}

/// The number of space tokens.
pub open spec fn count_space_tokens(t: Seq<TokenView>) -> nat
    decreases t.len(),
{
    if t.len() == 0 {
        0
    } else {
        count_space_tokens(t.drop_last()) + if t.last() is Space { 1nat } else { 0nat }
    }
}

proof fn lemma_count_space_tokens_prepend(x: TokenView, t: Seq<TokenView>)
    ensures
        count_space_tokens(seq![x] + t) == count_space_tokens(t) + if x is Space { 1nat } else { 0nat },
    decreases t.len(),
{
    if t.len() > 0 {
        lemma_count_space_tokens_prepend(x, t.drop_last());
        assert((seq![x] + t).drop_last() =~= seq![x] + t.drop_last());
        assert((seq![x] + t).last() == t.last());
    } else {
        assert(seq![x] + t =~= seq![x]);
        assert(seq![x].drop_last() =~= Seq::<TokenView>::empty());
        assert(count_space_tokens(Seq::<TokenView>::empty()) == 0);
        assert(seq![x].last() == x);
    }
}

proof fn lemma_count_spaces_first(s: Seq<char>)
    requires
        s.len() > 0,
    ensures
        count_spaces(s) == count_spaces(s.drop_first()) + if s[0] == ' ' { 1nat } else { 0nat },
    decreases s.len(),
{
    if s.len() > 1 {
        lemma_count_spaces_first(s.drop_last());
        assert(s.drop_last().drop_first() =~= s.drop_first().drop_last());
    } else {
        assert(s.drop_last() =~= Seq::<char>::empty());
        assert(s.drop_first() =~= Seq::<char>::empty());
    }
}

proof fn lemma_tokens_from_counts(chars: Seq<char>, i: int, umap: Map<char, Seq<char>>, ligature: bool)
    requires
        0 <= i <= chars.len(),
    ensures
        tokens_from(chars, i, umap, ligature).len() <= chars.len() - i,
        count_space_tokens(tokens_from(chars, i, umap, ligature)) == count_spaces(chars.skip(i)),
    decreases chars.len() - i,
{
    if i < chars.len() {
        let lam_alif = chars[i] != ' ' && chars[i] == '\u{0644}' && i + 1 < chars.len() && chars[i + 1] == '\u{0627}' && ligature;
        let next: int = if lam_alif { i + 2 } else { i + 1 };
        lemma_tokens_from_counts(chars, next, umap, ligature);
        let rest = tokens_from(chars, next, umap, ligature);
        let t = tokens_from(chars, i, umap, ligature);
        lemma_count_spaces_first(chars.skip(i));
        assert(chars.skip(i).drop_first() =~= chars.skip(i + 1));
        assert(chars.skip(i)[0] == chars[i]);
        if lam_alif {
            lemma_count_spaces_first(chars.skip(i + 1));
            assert(chars.skip(i + 1).drop_first() =~= chars.skip(i + 2));
            assert(chars.skip(i + 1)[0] == chars[i + 1]);
            lemma_count_space_tokens_prepend(TokenView::Glyph(lam_alif_name()), rest);
        } else if chars[i] == ' ' {
            lemma_count_space_tokens_prepend(TokenView::Space, rest);
        } else if umap.contains_key(chars[i]) {
            lemma_count_space_tokens_prepend(TokenView::Glyph(umap[chars[i]]), rest);
        }
    } else {
        assert(chars.skip(i) =~= Seq::<char>::empty());
    }
}

proof fn lemma_normalize_counts(s: Seq<char>)
    ensures
        normalize_seq(s).len() <= s.len(),
        count_spaces(normalize_seq(s)) == count_spaces(s),
    decreases s.len(),
{
    if s.len() > 0 {
        lemma_normalize_counts(s.drop_last());
        let r = normalize_seq(s.drop_last());
        if let Some(c) = spec_normalize_char(s.last()) {
            assert(r.push(c).drop_last() =~= r);
        }
    }
}

/// Tokenizing gives at most one token per input character, and exactly one
/// space token per space of the input.
pub proof fn lemma_tokenize_counts(input: Seq<char>, umap: Map<char, Seq<char>>, glyphs: Map<Seq<char>, GlyphView>)
    ensures
        spec_tokenize(input, umap, glyphs).len() <= input.len(),
        count_space_tokens(spec_tokenize(input, umap, glyphs)) == count_spaces(input),
{
    let chars = normalize_seq(input);
    lemma_normalize_counts(input);
    lemma_tokens_from_counts(chars, 0, umap, glyphs.contains_key(lam_alif_name()));
    assert(chars.skip(0) =~= chars);
}

/// Normalized text is left as it is by normalization: it holds no
/// diacritic, tatweel, alif variant or teh marbuta.
pub proof fn lemma_normalized_text_is_normal(s: Seq<char>)
    ensures
        forall|i: int| 0 <= i < normalize_seq(s).len() ==>
            spec_normalize_char(#[trigger] normalize_seq(s)[i]) == Some(normalize_seq(s)[i]),
    decreases s.len(),
{
    if s.len() > 0 {
        lemma_normalized_text_is_normal(s.drop_last());
        let r = normalize_seq(s.drop_last());
        lemma_normalize_idempotent(s.last());
        assert forall|i: int| 0 <= i < normalize_seq(s).len() implies
            spec_normalize_char(#[trigger] normalize_seq(s)[i]) == Some(normalize_seq(s)[i]) by {
            if i < r.len() {
                assert(normalize_seq(s)[i] == r[i]);
            }
        }
    }
}

/// A letter that does not connect to what precedes it is never joined from
/// behind: it stands isolated or initial, and the token before it stands
/// isolated or final.
pub proof fn lemma_no_join_into_non_connecting(tokens: Seq<TokenView>, glyphs: Map<Seq<char>, GlyphView>, i: int)
    requires
        glyphs_known(tokens, glyphs),
        0 < i < tokens.len(),
        tokens[i] matches TokenView::Glyph(name) && !glyphs[name].connects_prev,
    ensures
        position_at(tokens, glyphs, i) == Position::Isolated || position_at(tokens, glyphs, i) == Position::Initial,
        position_at(tokens, glyphs, i - 1) == Position::Isolated || position_at(tokens, glyphs, i - 1) == Position::Final,
{
    assert(match tokens[i - 1] { TokenView::Glyph(name) => glyphs.contains_key(name), TokenView::Space => true });
    assert(match tokens[i] { TokenView::Glyph(name) => glyphs.contains_key(name), TokenView::Space => true });
}

/// Two neighbouring letters that connect towards each other join: the first
/// stands initial or medial, the second medial or final.
pub proof fn lemma_connecting_neighbours_join(tokens: Seq<TokenView>, glyphs: Map<Seq<char>, GlyphView>, i: int)
    requires
        glyphs_known(tokens, glyphs),
        0 <= i,
        i + 1 < tokens.len(),
        tokens[i] matches TokenView::Glyph(a) && glyphs[a].connects_next,
        tokens[i + 1] matches TokenView::Glyph(b) && glyphs[b].connects_prev,
    ensures
        position_at(tokens, glyphs, i) == Position::Initial || position_at(tokens, glyphs, i) == Position::Medial,
        position_at(tokens, glyphs, i + 1) == Position::Medial || position_at(tokens, glyphs, i + 1) == Position::Final,
{
    assert(match tokens[i] { TokenView::Glyph(name) => glyphs.contains_key(name), TokenView::Space => true });
    assert(match tokens[i + 1] { TokenView::Glyph(name) => glyphs.contains_key(name), TokenView::Space => true });
}

/// Normalization drops every Arabic diacritic (U+064B to U+0652, U+0670)
/// and the tatweel (U+0640).
pub proof fn lemma_marks_dropped(c: char)
    requires
        ('\u{064B}' <= c && c <= '\u{0652}') || c == '\u{0670}' || c == '\u{0640}',
    ensures
        spec_normalize_char(c) is None,
{
}

/// Normalized text holds no diacritic, no tatweel, no alif variant
/// (U+0622, U+0623, U+0625, U+0671) and no teh marbuta (U+0629).
pub proof fn lemma_normalized_free_of_marks(s: Seq<char>)
    ensures
        forall|i: int| 0 <= i < normalize_seq(s).len() ==> {
            let c = #[trigger] normalize_seq(s)[i];
            &&& !('\u{064B}' <= c && c <= '\u{0652}')
            &&& c != '\u{0670}' && c != '\u{0640}'
            &&& c != '\u{0622}' && c != '\u{0623}' && c != '\u{0625}' && c != '\u{0671}'
            &&& c != '\u{0629}'
        },
    decreases s.len(),
{
    if s.len() > 0 {
        lemma_normalized_free_of_marks(s.drop_last());
        let r = normalize_seq(s.drop_last());
        assert forall|i: int| 0 <= i < normalize_seq(s).len() implies {
            let c = #[trigger] normalize_seq(s)[i];
            &&& !('\u{064B}' <= c && c <= '\u{0652}')
            &&& c != '\u{0670}' && c != '\u{0640}'
            &&& c != '\u{0622}' && c != '\u{0623}' && c != '\u{0625}' && c != '\u{0671}'
            &&& c != '\u{0629}'
        } by {
            if i < r.len() {
                assert(normalize_seq(s)[i] == r[i]);
            }
        }
    }
}

/// Normalizing a concatenation normalizes each part.
pub proof fn lemma_normalize_concat(a: Seq<char>, b: Seq<char>)
    ensures
        normalize_seq(a + b) == normalize_seq(a) + normalize_seq(b),
    decreases b.len(),
{
    if b.len() == 0 {
        assert(a + b =~= a);
        assert(normalize_seq(b) =~= Seq::<char>::empty());
        assert(normalize_seq(a) + normalize_seq(b) =~= normalize_seq(a));
    } else {
        lemma_normalize_concat(a, b.drop_last());
        assert((a + b).drop_last() =~= a + b.drop_last());
        assert((a + b).last() == b.last());
        match spec_normalize_char(b.last()) {
            Some(c) => {
                assert(normalize_seq(a) + normalize_seq(b) =~= (normalize_seq(a) + normalize_seq(b.drop_last())).push(c));
            },
            None => {},
        }
    }
}

/// A diacritic or tatweel anywhere in the input never changes the tokens:
/// lam, shadda, alif still gives the lam-alif ligature.
pub proof fn lemma_marks_do_not_change_tokens(
    a: Seq<char>,
    d: char,
    b: Seq<char>,
    umap: Map<char, Seq<char>>,
    glyphs: Map<Seq<char>, GlyphView>,
)
    requires
        ('\u{064B}' <= d && d <= '\u{0652}') || d == '\u{0670}' || d == '\u{0640}',
    ensures
        spec_tokenize(a + seq![d] + b, umap, glyphs) == spec_tokenize(a + b, umap, glyphs),
{
    lemma_normalize_concat(a + seq![d], b);
    lemma_normalize_concat(a, seq![d]);
    lemma_normalize_concat(a, b);
    assert(seq![d].drop_last() =~= Seq::<char>::empty());
    assert(seq![d].last() == d);
    lemma_marks_dropped(d);
    assert(normalize_seq(Seq::<char>::empty()) =~= Seq::<char>::empty());
    assert(normalize_seq(seq![d]) =~= Seq::<char>::empty());
    assert(normalize_seq(a) + normalize_seq(seq![d]) =~= normalize_seq(a));
}

/// Each loaded glyph holds what the file writes under its name: its
/// `unicode` string, its `connects_next` and `connects_prev` booleans, and
/// for each form the `art` string of the table under the key of that form's
/// name (`isolated`, `initial`, `medial`, `final`).
pub proof fn lemma_loaded_glyph_fields(content: Seq<char>, k: Seq<char>)
    requires
        spec_load_glyphs(content) is Ok,
        spec_load_glyphs(content)->Ok_0.1.contains_key(k),
    ensures
        ({
            let g = spec_load_glyphs(content)->Ok_0.1[k];
            &&& k != height_key()
            &&& toml_parsed(content, seq![k, "unicode"@]) == Ok::<TomlLevelView, Seq<char>>(TomlLevelView::Text(g.unicode))
            &&& toml_parsed(content, seq![k, "connects_next"@]) == Ok::<TomlLevelView, Seq<char>>(TomlLevelView::Boolean(g.connects_next))
            &&& toml_parsed(content, seq![k, "connects_prev"@]) == Ok::<TomlLevelView, Seq<char>>(TomlLevelView::Boolean(g.connects_prev))
            &&& toml_parsed(content, seq![k, "isolated"@, "art"@]) == Ok::<TomlLevelView, Seq<char>>(TomlLevelView::Text(g.isolated))
            &&& toml_parsed(content, seq![k, "initial"@, "art"@]) == Ok::<TomlLevelView, Seq<char>>(TomlLevelView::Text(g.initial))
            &&& toml_parsed(content, seq![k, "medial"@, "art"@]) == Ok::<TomlLevelView, Seq<char>>(TomlLevelView::Text(g.medial))
            &&& toml_parsed(content, seq![k, "final"@, "art"@]) == Ok::<TomlLevelView, Seq<char>>(TomlLevelView::Text(g.final_form))
        }),
{
    let p = top_path(k);
    assert(p.push("unicode"@) =~= seq![k, "unicode"@]);
    assert(p.push("connects_next"@) =~= seq![k, "connects_next"@]);
    assert(p.push("connects_prev"@) =~= seq![k, "connects_prev"@]);
    assert(p.push("isolated"@).push("art"@) =~= seq![k, "isolated"@, "art"@]);
    assert(p.push("initial"@).push("art"@) =~= seq![k, "initial"@, "art"@]);
    assert(p.push("medial"@).push("art"@) =~= seq![k, "medial"@, "art"@]);
    assert(p.push("final"@).push("art"@) =~= seq![k, "final"@, "art"@]);
}

} // verus!
