//! A TOML document as the launcher reads it: its top-level entries, and one
//! level of the tables among them.
//!
//! The launcher never needs more of a config than that: the pin keys and the
//! working directory are top-level strings, a manifest's package name is one
//! table down, and cargo's install ledger is one table of keys. Parsing is
//! the `toml` crate's; what the launcher does with the entries is its own.

use vstd::prelude::*;

verus! {

/// A TOML value, as far as the launcher looks into one: strings, booleans,
/// arrays and tables, with every other kind (numbers, dates) kept only as the
/// fact that something else is there.
#[derive(Debug)]
pub enum TomlValue {
    /// A string.
    Str(String),
    /// A boolean.
    Bool(bool),
    /// An array.
    Array(Vec<TomlValue>),
    /// A table, its entries in the order the parsed table lists them.
    Table(Vec<(String, TomlValue)>),
    /// Anything else: a number, a date.
    Other,
}

/// The characters of a [`TomlValue`].
pub enum ValueView {
    /// A string.
    Str(Seq<char>),
    /// A boolean.
    Bool(bool),
    /// An array.
    Array(Seq<ValueView>),
    /// A table.
    Table(Seq<(Seq<char>, ValueView)>),
    /// Anything else.
    Other,
}

/// The characters of a value.
pub open spec fn value_view(v: TomlValue) -> ValueView
    decreases v,
{
    match v {
        TomlValue::Str(s) => ValueView::Str(s@),
        TomlValue::Bool(b) => ValueView::Bool(b),
        TomlValue::Array(a) => ValueView::Array(items_view(a@)),
        TomlValue::Table(t) => ValueView::Table(entries_view(t@)),
        TomlValue::Other => ValueView::Other,
    }
}

/// The characters of an array's items.
pub open spec fn items_view(s: Seq<TomlValue>) -> Seq<ValueView>
    decreases s,
{
    if s.len() == 0 {
        Seq::empty()
    } else {
        items_view(s.drop_last()).push(value_view(s.last()))
    }
}

/// The characters of a table's entries.
pub open spec fn entries_view(s: Seq<(String, TomlValue)>) -> Seq<(Seq<char>, ValueView)>
    decreases s,
{
    if s.len() == 0 {
        Seq::empty()
    } else {
        proof {
            assert(decreases_to!(s => s[s.len() - 1]));
            assert(decreases_to!(s[s.len() - 1] => s[s.len() - 1].1));
        }
        entries_view(s.drop_last()).push((s.last().0@, value_view(s.last().1)))
    }
}

impl View for TomlValue {
    type V = ValueView;

    open spec fn view(&self) -> ValueView {
        value_view(*self)
    }
}

/// A document's top-level entries, in the order the parsed table lists them.
pub type DocView = Seq<(Seq<char>, ValueView)>;

/// The view of a table's entries.
pub open spec fn doc_view(v: Seq<(String, TomlValue)>) -> DocView {
    entries_view(v)
}

/// The view of an optional string.
pub open spec fn opt_view(o: Option<String>) -> Option<Seq<char>> {
    match o {
        Some(s) => Some(s@),
        None => None,
    }
}

/// A table's view has one entry per entry, each its key's and value's view.
pub proof fn lemma_entries_view(s: Seq<(String, TomlValue)>)
    ensures
        entries_view(s).len() == s.len(),
        forall|i: int| 0 <= i < s.len() ==> #[trigger] entries_view(s)[i] == (s[i].0@, value_view(s[i].1)),
    decreases s.len(),
{
    if s.len() > 0 {
        lemma_entries_view(s.drop_last());
    }
}

/// An array's view has one item per item, each its view.
pub proof fn lemma_items_view(s: Seq<TomlValue>)
    ensures
        items_view(s).len() == s.len(),
        forall|i: int| 0 <= i < s.len() ==> #[trigger] items_view(s)[i] == value_view(s[i]),
    decreases s.len(),
{
    if s.len() > 0 {
        lemma_items_view(s.drop_last());
    }
}

/// What the `toml` crate parses `text` into, as top-level entries, or the
/// text of its error.
pub uninterp spec fn toml_document(text: Seq<char>) -> Result<DocView, Seq<char>>;

/// `toml::Value`, declared so that a parsed value can be handed on to be
/// converted. Nothing about one is stated.
#[verifier::external_type_specification]
#[verifier::external_body]
pub struct ExTomlValue(toml::Value);

/// `text.parse::<toml::Table>()`, with the table converted entry by entry to
/// [`TomlValue`] and an error converted to its message. Everything about the
/// result is named by [`toml_document`] over the text; no property of the
/// TOML grammar is stated here.
#[verifier::external_body]
pub(crate) fn parse_toml(text: &str) -> (r: Result<Vec<(String, TomlValue)>, String>)
    ensures
        match r {
            Ok(d) => toml_document(text@) == Ok::<DocView, Seq<char>>(doc_view(d@)),
            Err(e) => toml_document(text@) == Err::<DocView, Seq<char>>(e@),
        },
{
    match text.parse::<toml::Table>() {
        Err(e) => Err(e.to_string()),
        Ok(t) => Ok(t.into_iter().map(|(k, v)| (k, converted(v))).collect()),
    }
}

/// The conversion half of [`parse_toml`], one value for one, variant by
/// variant, into the same shape: what it returns is covered by the name on
/// that function's result, and nothing is stated of it here.
#[verifier::external_body]
fn converted(v: toml::Value) -> TomlValue {
    match v {
        toml::Value::String(s) => TomlValue::Str(s),
        toml::Value::Boolean(b) => TomlValue::Bool(b),
        toml::Value::Array(a) => TomlValue::Array(a.into_iter().map(converted).collect()),
        toml::Value::Table(t) => TomlValue::Table(t.into_iter().map(|(k, v)| (k, converted(v))).collect()),
        _ => TomlValue::Other,
    }
}

/// The value of the first entry named `key`.
pub open spec fn lookup(doc: DocView, key: Seq<char>) -> Option<ValueView>
    decreases doc.len(),
{
    if doc.len() == 0 {
        None
    } else if doc[0].0 == key {
        Some(doc[0].1)
    } else {
        lookup(doc.subrange(1, doc.len() as int), key)
    }
}

/// The string value of the first entry named `key`, when it is a string.
pub open spec fn string_at(doc: DocView, key: Seq<char>) -> Option<Seq<char>> {
    match lookup(doc, key) {
        Some(ValueView::Str(s)) => Some(s),
        _ => None,
    }
}

/// The first entry named `key`.
pub fn find<'a>(doc: &'a Vec<(String, TomlValue)>, key: &str) -> (r: Option<&'a TomlValue>)
    ensures
        match r {
            Some(e) => lookup(doc_view(doc@), key@) == Some(e@),
            None => lookup(doc_view(doc@), key@) is None,
        },
{
    let ghost d = doc_view(doc@);
    proof {
        lemma_entries_view(doc@);
    }
    assert(d.subrange(0, d.len() as int) =~= d);
    let mut i: usize = 0;
    while i < doc.len()
        invariant
            i <= doc@.len(),
            d == doc_view(doc@),
            d.len() == doc@.len(),
            forall|j: int| 0 <= j < doc@.len() ==> #[trigger] d[j] == (doc@[j].0@, doc@[j].1@),
            lookup(d, key@) == lookup(d.subrange(i as int, d.len() as int), key@),
        decreases doc.len() - i,
    {
        let ghost tail = d.subrange(i as int, d.len() as int);
        assert(tail[0] == d[i as int]);
        assert(tail.subrange(1, tail.len() as int) =~= d.subrange(i + 1, d.len() as int));
        if crate::text::same(doc[i].0.as_str(), key) {
            return Some(&doc[i].1);
        }
        i = i + 1;
    }
    None
}

/// The string value of the first entry named `key`, when it is a string.
pub fn find_string(doc: &Vec<(String, TomlValue)>, key: &str) -> (r: Option<String>)
    ensures
        opt_view(r) == string_at(doc_view(doc@), key@),
{
    match find(doc, key) {
        Some(TomlValue::Str(s)) => Some(s.clone()),
        _ => None,
    }
}

} // verus!
