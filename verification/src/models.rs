use vstd::prelude::*;
use crate::assoc::{assoc_map, distinct_keys, lemma_assoc_dom, lemma_assoc_index, lemma_assoc_len, lemma_assoc_update};

verus! {

/// A single positional form of a glyph.
#[derive(Debug, Clone)]
pub struct GlyphForm {
    pub art: String,
}

/// A complete glyph entry with 4 positional forms and connection metadata.
#[derive(Debug, Clone)]
pub struct Glyph {
    pub unicode: String,
    pub connects_next: bool,
    pub connects_prev: bool,
    pub isolated: GlyphForm,
    pub initial: GlyphForm,
    pub medial: GlyphForm,
    pub final_form: GlyphForm,
}

/// What a glyph holds, as mathematical values.
pub struct GlyphView {
    pub unicode: Seq<char>,
    pub connects_next: bool,
    pub connects_prev: bool,
    pub isolated: Seq<char>,
    pub initial: Seq<char>,
    pub medial: Seq<char>,
    pub final_form: Seq<char>,
}

impl View for GlyphForm {
    type V = Seq<char>;

    open spec fn view(&self) -> Seq<char> {
        self.art@
    }
}

impl View for Glyph {
    type V = GlyphView;

    open spec fn view(&self) -> GlyphView {
        GlyphView {
            unicode: self.unicode@,
            connects_next: self.connects_next,
            connects_prev: self.connects_prev,
            isolated: self.isolated@,
            initial: self.initial@,
            medial: self.medial@,
            final_form: self.final_form@,
        }
    }
}

/// Positional form of a letter determined by its neighbors.
#[derive(Clone, Copy, Debug, PartialEq, Eq, Structural)]
pub enum Position {
    Isolated,
    Initial,
    Medial,
    Final,
}

/// A token in the processed input stream.
#[derive(Debug)]
pub enum Token {
    /// A glyph, by its name in the glyph table.
    Glyph(String),
    Space,
}

/// What a token holds, as mathematical values.
pub enum TokenView {
    Glyph(Seq<char>),
    Space,
}

impl View for Token {
    type V = TokenView;

    open spec fn view(&self) -> TokenView {
        match self {
            Token::Glyph(name) => TokenView::Glyph(name@),
            Token::Space => TokenView::Space,
        }
    }
}

/// Width-normalized, parsed art lines ready for concatenation.
pub struct RenderedGlyph {
    pub lines: Vec<String>,
}

impl View for RenderedGlyph {
    type V = Seq<Seq<char>>;

    open spec fn view(&self) -> Seq<Seq<char>> {
        self.lines@.map_values(|l: String| l@)
    }
}

/// The glyphs of a font, by name. No name occurs twice.
pub struct GlyphTable {
    entries: Vec<(String, Glyph)>,
}

impl GlyphTable {
    /// The (name, glyph) pairs in the order the table keeps them.
    pub closed spec fn pairs(&self) -> Seq<(Seq<char>, GlyphView)> {
        self.entries@.map_values(|e: (String, Glyph)| (e.0@, e.1@))
    }

    #[verifier::type_invariant]
    closed spec fn names_distinct(&self) -> bool {
        distinct_keys(self.pairs())
    }

    /// The name at position `i` of the table.
    pub open spec fn name_at(&self, i: int) -> Seq<char> {
        self.pairs()[i].0
    }

    /// Number of glyphs in the table.
    pub open spec fn count(&self) -> nat {
        self.pairs().len()
    }
}

impl View for GlyphTable {
    type V = Map<Seq<char>, GlyphView>;

    open spec fn view(&self) -> Map<Seq<char>, GlyphView> {
        assoc_map(self.pairs())
    }
}

impl GlyphTable {
    /// An empty table.
    pub fn new() -> (t: GlyphTable)
        ensures
            t@ == Map::<Seq<char>, GlyphView>::empty(),
            t.count() == 0,
    {
        let t = GlyphTable { entries: Vec::new() };
        assert(t.pairs() =~= Seq::<(Seq<char>, GlyphView)>::empty());
        t
    }

    /// Position of the entry named `key`, if there is one.
    fn find(&self, key: &String) -> (r: Option<usize>)
        ensures
            match r {
                Some(i) => i < self.count() && self.name_at(i as int) == key@,
                None => forall|i: int| 0 <= i < self.count() ==> #[trigger] self.name_at(i) != key@,
            },
    {
        let mut i: usize = 0;
        while i < self.entries.len()
            invariant
                i <= self.entries.len(),
                forall|j: int| 0 <= j < i ==> #[trigger] self.name_at(j) != key@,
            decreases self.entries.len() - i,
        {
            if self.entries[i].0 == *key {
                return Some(i);
            }
            i = i + 1;
        }
        None
    }

    /// Facts about the table that hold of every value of the type.
    proof fn lemma_lookup(&self, k: Seq<char>)
        requires
            distinct_keys(self.pairs()),
        ensures
            self@.contains_key(k) <==> exists|i: int| 0 <= i < self.count() && #[trigger] self.name_at(i) == k,
            forall|i: int| 0 <= i < self.count() ==> self@.contains_key(#[trigger] self.name_at(i))
                && self@[self.name_at(i)] == self.pairs()[i].1,
            self@.dom().finite(),
            self@.dom().len() == self.count(),
    {
        lemma_assoc_dom(self.pairs(), k);
        if self@.contains_key(k) {
            let i = choose|i: int| 0 <= i < self.pairs().len() && #[trigger] self.pairs()[i].0 == k;
            assert(self.name_at(i) == k);
        }
        if exists|i: int| 0 <= i < self.count() && #[trigger] self.name_at(i) == k {
            let i = choose|i: int| 0 <= i < self.count() && #[trigger] self.name_at(i) == k;
            assert(self.pairs()[i].0 == k);
        }
        assert forall|i: int| 0 <= i < self.count() implies self@.contains_key(#[trigger] self.name_at(i))
            && self@[self.name_at(i)] == self.pairs()[i].1 by {
            lemma_assoc_index(self.pairs(), i);
        }
        lemma_assoc_len(self.pairs());
    }

    /// Number of glyphs in the table.
    pub fn len(&self) -> (n: usize)
        ensures
            n == self.count(),
            n == self@.len(),
            self@.dom().finite(),
            forall|k: Seq<char>| self@.contains_key(k) <==> exists|i: int| 0 <= i < n && #[trigger] self.name_at(i) == k,
            forall|i: int| 0 <= i < n ==> self@.contains_key(#[trigger] self.name_at(i)),
    {
        proof {
            use_type_invariant(self);
            self.lemma_lookup(Seq::empty());
            assert forall|k: Seq<char>| self@.contains_key(k) <==> exists|i: int| 0 <= i < self.count() && #[trigger] self.name_at(i) == k by {
                self.lemma_lookup(k);
            }
        }
        self.entries.len()
    }

    /// The name and glyph at position `i`.
    pub fn entry(&self, i: usize) -> (r: (&String, &Glyph))
        requires
            i < self.count(),
        ensures
            r.0@ == self.name_at(i as int),
            self@.contains_key(r.0@),
            self@[r.0@] == r.1@,
    {
        proof {
            use_type_invariant(self);
            self.lemma_lookup(Seq::empty());
        }
        let e = &self.entries[i];
        (&e.0, &e.1)
    }

    /// The names of the table, in its order.
    pub fn names(&self) -> (r: Vec<String>)
        ensures
            r.len() == self.count(),
            forall|i: int| 0 <= i < r.len() ==> (#[trigger] r@[i])@ == self.name_at(i),
    {
        let mut out: Vec<String> = Vec::new();
        let mut i: usize = 0;
        while i < self.entries.len()
            invariant
                i <= self.entries.len(),
                out.len() == i,
                forall|j: int| 0 <= j < i ==> (#[trigger] out@[j])@ == self.name_at(j),
            decreases self.entries.len() - i,
        {
            out.push(self.entries[i].0.clone());
            i = i + 1;
        }
        out
    }

    /// The glyph named `name`, if the table has one.
    pub fn get(&self, name: &str) -> (r: Option<&Glyph>)
        ensures
            match r {
                Some(g) => self@.contains_key(name@) && self@[name@] == g@,
                None => !self@.contains_key(name@),
            },
    {
        proof {
            use_type_invariant(self);
            self.lemma_lookup(name@);
        }
        let key = String::from_str(name);
        match self.find(&key) {
            Some(i) => Some(&self.entries[i].1),
            None => None,
        }
    }

    /// Whether the table has a glyph named `name`.
    pub fn contains_key(&self, name: &str) -> (r: bool)
        ensures
            r == self@.contains_key(name@),
    {
        self.get(name).is_some()
    }

    /// Adds `glyph` under `name`, replacing any glyph of that name.
    pub fn insert(&mut self, name: String, glyph: Glyph)
        ensures
            final(self)@ == old(self)@.insert(name@, glyph@),
    {
        proof {
            use_type_invariant(&*self);
        }
        let ghost old_pairs = self.pairs();
        let found = self.find(&name);
        assert(found is None ==> forall|j: int| 0 <= j < old_pairs.len() ==> #[trigger] old_pairs[j].0 != name@) by {
            if found is None {
                assert forall|j: int| 0 <= j < old_pairs.len() implies #[trigger] old_pairs[j].0 != name@ by {
                    assert(self.name_at(j) == old_pairs[j].0);
                }
            }
        }
        let mut entries: Vec<(String, Glyph)> = Vec::new();
        std::mem::swap(&mut entries, &mut self.entries);
        let ghost new_pairs: Seq<(Seq<char>, GlyphView)>;
        match found {
            Some(i) => {
                proof {
                    lemma_assoc_update(old_pairs, i as int, glyph@);
                    new_pairs = old_pairs.update(i as int, (old_pairs[i as int].0, glyph@));
                }
                entries.set(i, (name, glyph));
                assert(entries@.map_values(|e: (String, Glyph)| (e.0@, e.1@)) =~= new_pairs);
            },
            None => {
                let ghost key = name@;
                let ghost gv = glyph@;
                entries.push((name, glyph));
                proof {
                    new_pairs = old_pairs.push((key, gv));
                }
                let ghost ps = entries@.map_values(|e: (String, Glyph)| (e.0@, e.1@));
                assert(ps =~= new_pairs);
                assert(new_pairs.drop_last() =~= old_pairs);
                assert(distinct_keys(new_pairs)) by {
                    assert forall|a: int, b: int| 0 <= a < b < new_pairs.len()
                        implies #[trigger] new_pairs[a].0 != #[trigger] new_pairs[b].0 by {
                        if b == old_pairs.len() {
                            assert(new_pairs[a] == old_pairs[a]);
                        } else {
                            assert(new_pairs[a] == old_pairs[a] && new_pairs[b] == old_pairs[b]);
                        }
                    }
                }
            },
        }
        self.entries = entries;
    }
}

/// Which glyph stands for a character: a map from characters to glyph names.
/// No character occurs twice.
pub struct UnicodeMap {
    entries: Vec<(char, String)>,
}

impl UnicodeMap {
    /// The (character, glyph name) pairs in the order the map keeps them.
    pub closed spec fn pairs(&self) -> Seq<(char, Seq<char>)> {
        self.entries@.map_values(|e: (char, String)| (e.0, e.1@))
    }

    #[verifier::type_invariant]
    closed spec fn chars_distinct(&self) -> bool {
        distinct_keys(self.pairs())
    }

    /// Number of characters in the map.
    pub open spec fn count(&self) -> nat {
        self.pairs().len()
    }
}

impl View for UnicodeMap {
    type V = Map<char, Seq<char>>;

    open spec fn view(&self) -> Map<char, Seq<char>> {
        assoc_map(self.pairs())
    }
}

impl UnicodeMap {
    /// An empty map.
    pub fn new() -> (m: UnicodeMap)
        ensures
            m@ == Map::<char, Seq<char>>::empty(),
    {
        let m = UnicodeMap { entries: Vec::new() };
        assert(m.pairs() =~= Seq::<(char, Seq<char>)>::empty());
        m
    }

    /// Position of the entry for `c`, if there is one.
    fn find(&self, c: char) -> (r: Option<usize>)
        ensures
            match r {
                Some(i) => i < self.count() && self.pairs()[i as int].0 == c,
                None => forall|i: int| 0 <= i < self.count() ==> #[trigger] self.pairs()[i].0 != c,
            },
    {
        let mut i: usize = 0;
        while i < self.entries.len()
            invariant
                i <= self.entries.len(),
                forall|j: int| 0 <= j < i ==> #[trigger] self.pairs()[j].0 != c,
            decreases self.entries.len() - i,
        {
            if self.entries[i].0 == c {
                return Some(i);
            }
            i = i + 1;
        }
        None
    }

    /// Number of characters in the map.
    pub fn len(&self) -> (n: usize)
        ensures
            n == self@.len(),
            self@.dom().finite(),
    {
        proof {
            use_type_invariant(self);
            lemma_assoc_len(self.pairs());
        }
        self.entries.len()
    }

    /// The glyph name for `c`, if the map has one.
    pub fn get(&self, c: char) -> (r: Option<&String>)
        ensures
            match r {
                Some(name) => self@.contains_key(c) && self@[c] == name@,
                None => !self@.contains_key(c),
            },
    {
        proof {
            use_type_invariant(self);
            lemma_assoc_dom(self.pairs(), c);
        }
        match self.find(c) {
            Some(i) => {
                proof {
                    lemma_assoc_index(self.pairs(), i as int);
                }
                Some(&self.entries[i].1)
            },
            None => None,
        }
    }

    /// Maps `c` to `name`, replacing any name it had.
    pub fn insert(&mut self, c: char, name: String)
        ensures
            final(self)@ == old(self)@.insert(c, name@),
    {
        proof {
            use_type_invariant(&*self);
        }
        let ghost old_pairs = self.pairs();
        let found = self.find(c);
        let mut entries: Vec<(char, String)> = Vec::new();
        std::mem::swap(&mut entries, &mut self.entries);
        let ghost new_pairs: Seq<(char, Seq<char>)>;
        match found {
            Some(i) => {
                proof {
                    lemma_assoc_update(old_pairs, i as int, name@);
                    new_pairs = old_pairs.update(i as int, (c, name@));
                }
                entries.set(i, (c, name));
                assert(entries@.map_values(|e: (char, String)| (e.0, e.1@)) =~= new_pairs);
            },
            None => {
                let ghost nv = name@;
                entries.push((c, name));
                proof {
                    new_pairs = old_pairs.push((c, nv));
                }
                assert(entries@.map_values(|e: (char, String)| (e.0, e.1@)) =~= new_pairs);
                assert(new_pairs.drop_last() =~= old_pairs);
                assert(distinct_keys(new_pairs)) by {
                    assert forall|a: int, b: int| 0 <= a < b < new_pairs.len()
                        implies #[trigger] new_pairs[a].0 != #[trigger] new_pairs[b].0 by {
                        assert(new_pairs[a] == old_pairs[a]);
                        if b < old_pairs.len() {
                            assert(new_pairs[b] == old_pairs[b]);
                        }
                    }
                }
            },
        }
        self.entries = entries;
    }
}

} // verus!
