//! TOML documents as plain values.

use vstd::prelude::*;
use vstd::string::*;

use crate::text;

verus! {

/// `toml::Value`, a value of a TOML document. Nothing is claimed of what is inside.
#[verifier::external_type_specification]
#[verifier::external_body]
pub struct ExTomlValue(toml::Value);

/// A TOML value. Floats and dates, of which nothing is asked here, are kept as they came.
#[derive(Debug)]
pub enum Node {
    Text(String),
    Integer(i64),
    Boolean(bool),
    Other(toml::Value),
    Array(Vec<Node>),
    Table(Vec<(String, Node)>),
}

pub enum NodeView {
    Text(Seq<char>),
    Integer(int),
    Boolean(bool),
    Other,
    Array(Seq<NodeView>),
    Table(Seq<(Seq<char>, NodeView)>),
}

impl View for Node {
    type V = NodeView;

    open spec fn view(&self) -> NodeView {
        node_view(*self)
    }
}

pub open spec fn node_view(v: Node) -> NodeView
    decreases v,
{
    match v {
        Node::Text(s) => NodeView::Text(s@),
        Node::Integer(i) => NodeView::Integer(i as int),
        Node::Boolean(b) => NodeView::Boolean(b),
        Node::Other(_) => NodeView::Other,
        Node::Array(items) => NodeView::Array(
            Seq::new(
                items@.len(),
                |i: int|
                    if 0 <= i < items@.len() {
                        node_view(items@[i])
                    } else {
                        NodeView::Other
                    },
            ),
        ),
        Node::Table(entries) => NodeView::Table(
            Seq::new(
                entries@.len(),
                |i: int|
                    if 0 <= i < entries@.len() {
                        (entries@[i].0@, node_view(entries@[i].1))
                    } else {
                        (Seq::empty(), NodeView::Other)
                    },
            ),
        ),
    }
}

/// How many times in a row `c` stands directly before index `n`.
pub open spec fn run_before(s: Seq<char>, c: char, n: int) -> nat
    decreases n,
{
    if n <= 0 || n > s.len() || s[n - 1] != c {
        0
    } else {
        1 + run_before(s, c, n - 1)
    }
}

/// Whether no quotation mark and no apostrophe is repeated more than 255 times in a row.
pub open spec fn quotes_fit(s: Seq<char>) -> bool {
    forall|n: int| 0 <= n <= s.len() ==> #[trigger] run_before(s, '"', n) < 256 && run_before(s, '\'', n) < 256
}

/// Whether `quotes_fit` holds of every text in `v`.
pub open spec fn texts_fit(v: NodeView) -> bool
    decreases v,
{
    match v {
        NodeView::Text(s) => quotes_fit(s),
        NodeView::Array(items) => forall|i: int| 0 <= i < items.len() ==> texts_fit(#[trigger] items[i]),
        NodeView::Table(entries) => forall|i: int| 0 <= i < entries.len() ==> texts_fit((#[trigger] entries[i]).1),
        _ => true,
    }
}

pub open spec fn is_scalar(v: NodeView) -> bool {
    v is Text || v is Integer || v is Boolean
}

pub open spec fn distinct_keys(entries: Seq<(Seq<char>, NodeView)>) -> bool {
    forall|i: int, j: int| 0 <= i < j < entries.len() ==> (#[trigger] entries[i]).0 != (#[trigger] entries[j]).0
}

/// Whether a key needs no quotes: it has only ASCII letters, digits, underscores and dashes, and at least one.
pub open spec fn is_bare_key(key: Seq<char>) -> bool {
    key.len() > 0 && forall|i: int| 0 <= i < key.len() ==> is_bare(#[trigger] key[i])
}

pub open spec fn is_bare(c: char) -> bool {
    'a' <= c && c <= 'z' || 'A' <= c && c <= 'Z' || '0' <= c && c <= '9' || c == '_' || c == '-'
}

pub open spec fn bare_keys(entries: Seq<(Seq<char>, NodeView)>) -> bool {
    forall|i: int| 0 <= i < entries.len() ==> is_bare_key((#[trigger] entries[i]).0)
}

/// A table of scalars and of lists of texts, under bare keys.
pub open spec fn is_record(v: NodeView) -> bool {
    v matches NodeView::Table(entries) && distinct_keys(entries) && bare_keys(entries) && forall|i: int|
        0 <= i < entries.len() ==> {
            ||| is_scalar((#[trigger] entries[i]).1)
            ||| entries[i].1 matches NodeView::Array(items) && forall|j: int|
                0 <= j < items.len() ==> (#[trigger] items[j]) is Text
        }
}

/// A table of scalars that ends with a list of records, under bare keys.
pub open spec fn is_record_file(v: NodeView) -> bool {
    v matches NodeView::Table(entries) && {
        &&& entries.len() > 1
        &&& distinct_keys(entries)
        &&& bare_keys(entries)
        &&& forall|i: int| 0 <= i < entries.len() - 1 ==> is_scalar((#[trigger] entries[i]).1)
        &&& entries.last().1 matches NodeView::Array(items) && forall|j: int|
            0 <= j < items.len() ==> is_record(#[trigger] items[j])
    }
}

/// The key of the last entry of a table.
pub open spec fn last_key(v: NodeView) -> Seq<char> {
    v->Table_0.last().0
}

/// The list that the last entry of a table holds.
pub open spec fn last_list(v: NodeView) -> Seq<NodeView> {
    v->Table_0.last().1->Array_0
}

/// What a text holds as a TOML document: a table, or the words of the error where it is none.
pub uninterp spec fn toml_document(text: Seq<char>) -> Result<NodeView, Seq<char>>;

/// The text of a TOML document.
pub uninterp spec fn toml_text(document: NodeView) -> Seq<char>;

/// A `toml::Value` as a plain value: each variant becomes the one that holds the same.
#[verifier::external_body]
fn import(value: toml::Value) -> (r: Node) {
    match value {
        toml::Value::String(text) => Node::Text(text),
        toml::Value::Integer(number) => Node::Integer(number),
        toml::Value::Boolean(flag) => Node::Boolean(flag),
        toml::Value::Float(number) => Node::Other(toml::Value::Float(number)),
        toml::Value::Datetime(date) => Node::Other(toml::Value::Datetime(date)),
        toml::Value::Array(items) => Node::Array(items.into_iter().map(import).collect()),
        toml::Value::Table(table) => Node::Table(table.into_iter().map(|(key, item)| (key, import(item))).collect()),
    }
}

/// A plain value as a `toml::Value`: each variant becomes the one that holds the same.
#[verifier::external_body]
fn export(value: &Node) -> (r: toml::Value) {
    match value {
        Node::Text(text) => toml::Value::String(text.clone()),
        Node::Integer(number) => toml::Value::Integer(*number),
        Node::Boolean(flag) => toml::Value::Boolean(*flag),
        Node::Other(other) => other.clone(),
        Node::Array(items) => toml::Value::Array(items.iter().map(export).collect()),
        Node::Table(entries) => toml::Value::Table(
            entries.iter().map(|entry| (entry.0.clone(), export(&entry.1))).collect(),
        ),
    }
}

/// Reads a TOML document with `toml::from_str`. What it holds, or the words of
/// the error, is named [`toml_document`]: both depend on the text alone. A
/// document is always a table. Inside of it, a table whose first key is the one
/// that the `toml` crate keeps for dates is read as a date.
#[verifier::external_body]
pub(crate) fn parse_toml(text: &str) -> (r: Result<Node, String>)
    ensures
        match r {
            Ok(value) => toml_document(text@) matches Ok(v) && v == value@ && v is Table,
            Err(why) => toml_document(text@) matches Err(w) && w == why@,
        },
{
    match toml::from_str::<toml::Table>(text) {
        Ok(table) => Ok(import(toml::Value::Table(table))),
        Err(error) => Err(error.to_string()),
    }
}

/// Writes a TOML document with `toml::to_string_pretty`, which succeeds on every
/// table of scalars and lists. The text is named [`toml_text`]. It is not blank,
/// and reading it gives the document back, with its entries in the same order.
/// Where there are records, a header has the key of their list in double brackets.
///
/// The writer counts repeated quotation marks in a byte, so longer runs of them
/// are left out. Keys are bare, so none is the key that is kept for dates.
#[verifier::external_body]
pub(crate) fn print_toml(document: &Node) -> (r: Result<String, String>)
    requires
        is_record_file(document@),
        texts_fit(document@),
    ensures
        match r {
            Ok(printed) => {
                &&& printed@ == toml_text(document@)
                &&& text::trimmed(printed@).len() > 0
                &&& toml_document(printed@) matches Ok(reread) && reread == document@
                &&& last_list(document@).len() > 0 ==> text::occurs_in(
                    "[["@ + last_key(document@) + "]]"@,
                    printed@,
                )
            },
            Err(_) => false,
        },
{
    toml::to_string_pretty(&export(document)).map_err(|error| error.to_string())
}

/// Whether `c` is repeated more than 255 times in a row somewhere in `s`.
fn long_run(s: &Vec<char>, c: char) -> (r: bool)
    ensures
        !r == (forall|n: int| 0 <= n <= s.len() ==> #[trigger] run_before(s@, c, n) < 256),
{
    let mut run: usize = 0;
    let mut n: usize = 0;
    while n < s.len()
        invariant
            n <= s.len(),
            run == run_before(s@, c, n as int),
            run < 256,
            forall|m: int| 0 <= m <= n ==> #[trigger] run_before(s@, c, m) < 256,
        decreases s.len() - n,
    {
        run = if s[n] == c { run + 1 } else { 0 };
        n += 1;
        if run == 256 {
            assert(run_before(s@, c, n as int) == 256);
            return true;
        }
    }
    false
}

/// Whether no quotation mark and no apostrophe is repeated more than 255 times in a row.
pub fn quotes_are_short(s: &str) -> (r: bool)
    ensures
        r == quotes_fit(s@),
{
    let chars = text::char_vec(s);
    let double = long_run(&chars, '"');
    let single = long_run(&chars, '\'');
    proof {
        if !double && !single {
            assert forall|n: int| 0 <= n <= s@.len() implies #[trigger] run_before(s@, '"', n) < 256 && run_before(
                s@,
                '\'',
                n,
            ) < 256 by {}
        }
        if quotes_fit(s@) {
            assert forall|n: int| 0 <= n <= s@.len() implies #[trigger] run_before(s@, '\'', n) < 256 by {
                assert(run_before(s@, '"', n) < 256);
            }
        }
    }
    !double && !single
}

} // verus!
