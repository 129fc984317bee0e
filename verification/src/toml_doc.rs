use vstd::prelude::*;

verus! {

/// The TOML value type of the `toml` crate.
#[verifier::external_type_specification]
#[verifier::external_body]
pub struct ExTomlValue(toml::Value);

/// One level of a parsed TOML document: an integer, a string, a boolean, a
/// table (by its keys, in the order the parser keeps them), or any other
/// value (float, datetime, array).
pub enum TomlLevelView {
    Integer(i64),
    Text(Seq<char>),
    Boolean(bool),
    Table(Seq<Seq<char>>),
    Other,
}

/// What `toml`'s parser makes of `content`, looked at under the key path
/// `path` from the top-level table: the parser's error message, or the
/// value at that path.
pub uninterp spec fn toml_parsed(content: Seq<char>, path: Seq<Seq<char>>) -> Result<TomlLevelView, Seq<char>>;

/// A value inside a parsed TOML document, with the document text and the
/// key path it stands under.
pub struct TomlNode {
    value: toml::Value,
    doc: Ghost<Seq<char>>,
    path: Ghost<Seq<Seq<char>>>,
}

impl TomlNode {
    /// The text of the document the node belongs to.
    pub closed spec fn doc(&self) -> Seq<char> {
        self.doc@
    }

    /// The key path of the node from the top-level table.
    pub closed spec fn path(&self) -> Seq<Seq<char>> {
        self.path@
    }
}

/// One level of a TOML value: the table variant holds the entries with the
/// values as nodes.
pub enum TomlLevel {
    Integer(i64),
    Text(String),
    Boolean(bool),
    Table(Vec<(String, TomlNode)>),
    Other,
}

/// Whether the level matches its description, and each table entry is the
/// node under the parent path extended by its key.
pub open spec fn level_matches(level: TomlLevel, doc: Seq<char>, path: Seq<Seq<char>>, view: TomlLevelView) -> bool {
    match (level, view) {
        (TomlLevel::Integer(i), TomlLevelView::Integer(j)) => i == j,
        (TomlLevel::Text(s), TomlLevelView::Text(t)) => s@ == t,
        (TomlLevel::Boolean(b), TomlLevelView::Boolean(c)) => b == c,
        (TomlLevel::Table(entries), TomlLevelView::Table(keys)) => {
            &&& entries.len() == keys.len()
            &&& forall|i: int| 0 <= i < keys.len() ==> {
                &&& (#[trigger] entries@[i]).0@ == keys[i]
                &&& entries@[i].1.doc() == doc
                &&& entries@[i].1.path() == path.push(keys[i])
                &&& toml_parsed(doc, path.push(keys[i])) is Ok
            }
        },
        (TomlLevel::Other, TomlLevelView::Other) => true,
        _ => false,
    }
}

/// Parses `content` with `toml::from_str` (through `str::parse` of a
/// `toml::Value`): the parser's error message (its `Display` text), or the
/// document, whose top level the name `toml_parsed` describes at the empty path.
#[verifier::external_body]
pub(crate) fn parse_toml(content: &str) -> (r: Result<TomlNode, String>)
    ensures
        match r {
            Ok(n) => n.doc() == content@ && n.path() == Seq::<Seq<char>>::empty()
                && toml_parsed(content@, Seq::empty()) is Ok,
            Err(e) => toml_parsed(content@, Seq::empty()) == Err::<TomlLevelView, Seq<char>>(e@),
        },
{
    match content.parse::<toml::Value>() {
        Ok(value) => Ok(TomlNode { value, doc: Ghost(content@), path: Ghost(Seq::empty()) }),
        Err(e) => Err(e.to_string()),
    }
}

/// The variant of the node's `toml::Value`, one arm per variant: integers,
/// strings and booleans by value, tables as their (key, value) pairs in the
/// order the `toml` map iterates them, every other variant as `Other`.
#[verifier::external_body]
pub(crate) fn node_level(n: &TomlNode) -> (r: TomlLevel)
    requires
        toml_parsed(n.doc(), n.path()) is Ok,
    ensures
        level_matches(r, n.doc(), n.path(), toml_parsed(n.doc(), n.path())->Ok_0),
{
    match &n.value {
        toml::Value::Integer(i) => TomlLevel::Integer(*i),
        toml::Value::String(s) => TomlLevel::Text(s.clone()),
        toml::Value::Boolean(b) => TomlLevel::Boolean(*b),
        toml::Value::Table(t) => TomlLevel::Table(t.iter().map(|(k, v)| (k.clone(), TomlNode { value: v.clone(), doc: Ghost(n.doc@), path: Ghost(n.path@.push(k@)) })).collect()),
        _ => TomlLevel::Other,
    }
}

} // verus!
