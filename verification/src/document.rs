//! TOML documents as trees of values, each with its place in the text.
use core::ops::Range;
use toml::de::DeValue;
use toml::Spanned;
use vstd::prelude::*;

verus! {

/// A TOML value and its place, as parsed by the `toml` crate.
#[verifier::external_type_specification]
#[verifier::external_body]
#[verifier::reject_recursive_types(T)]
pub struct ExSpanned<T>(toml::Spanned<T>);

/// A TOML value, as parsed by the `toml` crate.
#[verifier::external_type_specification]
#[verifier::external_body]
pub struct ExTomlValue<'i>(toml::de::DeValue<'i>);

/// Why the `toml` crate cannot read a text.
#[verifier::external_type_specification]
#[verifier::external_body]
pub struct ExTomlError(toml::de::Error);

/// A part of a text, as a range of bytes.
#[derive(Clone, Copy, Debug, PartialEq, Eq, Structural)]
pub struct Span {
    pub start: usize,
    pub end: usize,
}

/// A range of bytes as a part of a text.
fn make_span(range: Range<usize>) -> (r: Span)
    ensures
        r == (Span { start: range.start, end: range.end }),
{
    Span { start: range.start, end: range.end }
}

/// A value in a TOML document, at its place.
#[derive(Debug)]
pub enum Node {
    /// A boolean.
    Flag(Span, bool),
    /// A string.
    Text(Span, String),
    /// A number, as a text.
    Number(Span, String),
    /// A date or a time, as a text.
    Date(Span, String),
    /// An array.
    List(Span, Vec<Node>),
    /// A table, field by field.
    Table(Span, Vec<NamedNode>),
}

/// A field of a table.
#[derive(Debug)]
pub struct NamedNode {
    /// Where the name stands.
    pub place: Span,
    pub name: String,
    pub node: Node,
}

/// A field of a table whose name stands at the given range.
fn make_field(range: Range<usize>, name: String, node: Node) -> (r: NamedNode)
    ensures
        r == (NamedNode { place: Span { start: range.start, end: range.end }, name, node }),
{
    NamedNode { place: make_span(range), name, node }
}

/// The mathematical content of a [`Node`].
pub enum Document {
    Flag(Span, bool),
    Text(Span, Seq<char>),
    Number(Span, Seq<char>),
    Date(Span, Seq<char>),
    List(Span, Seq<Document>),
    Table(Span, Seq<NamedDocument>),
}

/// The mathematical content of a [`NamedNode`].
pub struct NamedDocument {
    pub place: Span,
    pub name: Seq<char>,
    pub document: Document,
}

impl Document {
    /// Where the value stands.
    pub open spec fn place(self) -> Span {
        match self {
            Document::Flag(place, _) => place,
            Document::Text(place, _) => place,
            Document::Number(place, _) => place,
            Document::Date(place, _) => place,
            Document::List(place, _) => place,
            Document::Table(place, _) => place,
        }
    }
}

/// What a node holds.
pub open spec fn contents(node: Node) -> Document
    decreases node,
{
    match node {
        Node::Flag(place, flag) => Document::Flag(place, flag),
        Node::Text(place, text) => Document::Text(place, text@),
        Node::Number(place, text) => Document::Number(place, text@),
        Node::Date(place, text) => Document::Date(place, text@),
        Node::List(place, items) => Document::List(
            place,
            Seq::new(
                items@.len(),
                |i: int|
                    if 0 <= i < items@.len() {
                        contents(items@[i])
                    } else {
                        arbitrary()
                    },
            ),
        ),
        Node::Table(place, fields) => Document::Table(
            place,
            Seq::new(
                fields@.len(),
                |i: int|
                    if 0 <= i < fields@.len() {
                        NamedDocument {
                            place: fields@[i].place,
                            name: fields@[i].name@,
                            document: contents(fields@[i].node),
                        }
                    } else {
                        arbitrary()
                    },
            ),
        ),
    }
}

impl View for Node {
    type V = Document;

    open spec fn view(&self) -> Document {
        contents(*self)
    }
}

impl View for NamedNode {
    type V = NamedDocument;

    open spec fn view(&self) -> NamedDocument {
        NamedDocument { place: self.place, name: self.name@, document: self.node@ }
    }
}

/// What the items of an array hold.
pub open spec fn items_view(items: Seq<Node>) -> Seq<Document> {
    Seq::new(items.len(), |i: int| items[i]@)
}

/// What the fields of a table hold.
pub open spec fn fields_view(fields: Seq<NamedNode>) -> Seq<NamedDocument> {
    Seq::new(fields.len(), |i: int| fields[i]@)
}

/// What an array and a table hold, item by item.
pub proof fn lemma_node_view(node: Node)
    ensures
        node matches Node::List(place, items) ==> node@ == Document::List(place, items_view(items@)),
        node matches Node::Table(place, fields) ==> node@ == Document::Table(
            place,
            fields_view(fields@),
        ),
{
    reveal_with_fuel(contents, 2);
    match node {
        Node::List(_, items) => {
            assert(node@->List_1 =~= items_view(items@));
        },
        Node::Table(_, fields) => {
            assert(node@->Table_1 =~= fields_view(fields@));
        },
        _ => {},
    }
}

impl Node {
    /// Where the value stands.
    pub fn place(&self) -> (r: Span)
        ensures
            r == self@.place(),
    {
        match self {
            Node::Flag(place, _) => *place,
            Node::Text(place, _) => *place,
            Node::Number(place, _) => *place,
            Node::Date(place, _) => *place,
            Node::List(place, _) => *place,
            Node::Table(place, _) => *place,
        }
    }
}

/// Whether no two fields of a table have the same name.
pub open spec fn distinct_names(fields: Seq<NamedDocument>) -> bool {
    forall|i: int, j: int|
        0 <= i < j < fields.len() ==> (#[trigger] fields[i]).name != (#[trigger] fields[j]).name
}

/// Whether no table in the document has two fields with the same name.
pub open spec fn tidy(document: Document) -> bool
    decreases document,
{
    match document {
        Document::List(_, items) => forall|i: int|
            0 <= i < items.len() ==> tidy(#[trigger] items[i]),
        Document::Table(_, fields) => {
            &&& distinct_names(fields)
            &&& forall|i: int| 0 <= i < fields.len() ==> tidy((#[trigger] fields[i]).document)
        },
        _ => true,
    }
}

/// What a TOML value holds, as a tree.
pub uninterp spec fn toml_contents(value: Spanned<DeValue>) -> Document;

/// How the `toml` crate words an error.
pub uninterp spec fn toml_message(error: toml::de::Error) -> Seq<char>;

/// What `toml::de::DeTable::parse` makes of a text: the document that it holds, or
/// the message of the error.
pub uninterp spec fn toml_document(text: Seq<char>) -> Result<Document, Seq<char>>;

/// Calls `toml::de::DeTable::parse`, which parses a text as a TOML document. What
/// it returns depends on the text alone.
#[verifier::external_body]
fn parse_toml(text: &str) -> (r: Result<Spanned<DeValue<'_>>, toml::de::Error>)
    ensures
        match r {
            Ok(value) => toml_document(text@) == Ok::<Document, Seq<char>>(toml_contents(value)),
            Err(error) => toml_document(text@) == Err::<Document, Seq<char>>(toml_message(error)),
        },
{
    toml::de::DeTable::parse(text).map(
        |table| Spanned::new(table.span(), DeValue::Table(table.into_inner())),
    )
}

/// Calls `to_string` on a `toml::de::Error`, which words the error.
#[verifier::external_body]
fn error_message(error: toml::de::Error) -> (r: String)
    ensures
        r@ == toml_message(error),
{
    error.to_string()
}

/// Takes a `toml::de::DeValue` apart, variant by variant: the tree holds what the
/// value holds, at the places that its spans give, and numbers and dates as texts. A
/// `toml::de::DeTable` is a map, so that every name stands in it once.
#[verifier::external_body]
fn into_node(value: Spanned<DeValue<'_>>) -> (node: Node)
    ensures
        node@ == toml_contents(value),
        tidy(node@),
{
    let place = make_span(value.span());
    match value.into_inner() {
        DeValue::Boolean(flag) => Node::Flag(place, flag),
        DeValue::String(text) => Node::Text(place, text.into()),
        DeValue::Integer(number) => Node::Number(place, number.to_string()),
        DeValue::Float(number) => Node::Number(place, number.to_string()),
        DeValue::Datetime(date) => Node::Date(place, date.to_string()),
        DeValue::Array(items) => Node::List(place, items.into_iter().map(into_node).collect()),
        DeValue::Table(fields) => Node::Table(
            place,
            fields.into_iter().map(
                |(name, value)| make_field(name.span(), name.to_string(), into_node(value))
            ).collect()
        ),
    }
}

/// Parses a text as a TOML document, or returns the message of the error. No name
/// occurs twice in a table.
pub fn parse_document(text: &str) -> (r: Result<Node, String>)
    ensures
        match r {
            Ok(node) => toml_document(text@) == Ok::<Document, Seq<char>>(node@) && tidy(node@),
            Err(message) => toml_document(text@) == Err::<Document, Seq<char>>(message@),
        },
{
    match parse_toml(text) {
        Ok(value) => Ok(into_node(value)),
        Err(error) => Err(error_message(error)),
    }
}

/// Nodes and their fields show what they hold, item by item and at its place.
pub proof fn nodes_show_what_they_hold(node: Node, field: NamedNode)
    ensures
        field@.place == field.place,
        field@.name == field.name@,
        field@.document == field.node@,
        node matches Node::Flag(place, flag) ==> node@ == Document::Flag(place, flag),
        node matches Node::Text(place, text) ==> node@ == Document::Text(place, text@),
        node matches Node::Number(place, text) ==> node@ == Document::Number(place, text@),
        node matches Node::Date(place, text) ==> node@ == Document::Date(place, text@),
        node matches Node::List(place, items) ==> node@ matches Document::List(at, shown) && at
            == place && shown.len() == items@.len() && forall|i: int|
            0 <= i < items@.len() ==> #[trigger] shown[i] == items@[i]@,
        node matches Node::Table(place, fields) ==> node@ matches Document::Table(at, shown) && at
            == place && shown.len() == fields@.len() && forall|i: int|
            0 <= i < fields@.len() ==> #[trigger] shown[i] == fields@[i]@,
{
    lemma_node_view(node);
}

/// Every value has the place that it was written at.
pub proof fn values_have_their_place(
    place: Span,
    flag: bool,
    text: Seq<char>,
    items: Seq<Document>,
    fields: Seq<NamedDocument>,
)
    ensures
        Document::Flag(place, flag).place() == place,
        Document::Text(place, text).place() == place,
        Document::Number(place, text).place() == place,
        Document::Date(place, text).place() == place,
        Document::List(place, items).place() == place,
        Document::Table(place, fields).place() == place,
{
}

/// A tidy document names nothing twice in any table, however deep.
pub proof fn tidy_documents_name_nothing_twice(
    place: Span,
    items: Seq<Document>,
    fields: Seq<NamedDocument>,
)
    ensures
        tidy(Document::List(place, items)) <==> forall|i: int|
            0 <= i < items.len() ==> tidy(#[trigger] items[i]),
        tidy(Document::Table(place, fields)) <==> {
            &&& forall|i: int| 0 <= i < fields.len() ==> tidy((#[trigger] fields[i]).document)
            &&& forall|i: int, j: int|
                0 <= i < j < fields.len() ==> (#[trigger] fields[i]).name != (
                #[trigger] fields[j]).name
        },
{
    let list = Document::List(place, items);
    let table = Document::Table(place, fields);
    if tidy(list) {
        reveal_with_fuel(tidy, 2);
        assert forall|i: int| 0 <= i < items.len() implies tidy(#[trigger] items[i]) by {
            let inner = list->List_1;
            assert(tidy(inner[i]));
        }
    }
    if forall|i: int| 0 <= i < items.len() ==> tidy(#[trigger] items[i]) {
        assert(tidy(list));
    }
    if tidy(table) {
        assert forall|i: int| 0 <= i < fields.len() implies tidy(
            (#[trigger] fields[i]).document,
        ) by {}
    }
}

} // verus!
