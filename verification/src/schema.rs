//! The schema of a configuration: which fields it has, what they hold, and what
//! is refused.
//!
//! A document is read in its order, and the first fault decides.
use crate::config::{apply_defaults, find_variable, Config, Configuration, Tool, ToolConfig};
use crate::document::{parse_document, Document, NamedDocument, NamedNode, Node, Span};
use crate::environment::{Entry, EntryError, EnvironmentVariable};
use crate::text::{concat_text, same_text, slice_text};
use serde::Deserialize;
use toml::de::ValueDeserializer;
use vstd::prelude::*;

verus! {

/// The kinds of tables that have a fixed set of fields.
#[derive(Clone, Copy, Debug, PartialEq, Eq, Structural)]
pub enum Scope {
    /// The document itself.
    Config,
    /// The configuration of a tool, or the global one.
    Tool,
}

impl Scope {
    /// The fields that such a table can have, as shown in a message.
    pub open spec fn choices(self) -> Seq<char> {
        match self {
            Scope::Config => "`global` or `tools`"@,
            Scope::Tool => "one of `network`, `inherit_env`, `mount`, `env`"@,
        }
    }

    /// The fields that such a table can have, as shown in a message.
    fn choices_text(self) -> (r: String)
        ensures
            r@ == self.choices(),
    {
        match self {
            Scope::Config => "`global` or `tools`".to_owned(),
            Scope::Tool => "one of `network`, `inherit_env`, `mount`, `env`".to_owned(),
        }
    }
}

/// Why a configuration is refused, and where in the text the fault lies.
#[derive(Debug)]
pub enum ConfigError {
    /// The text is not a TOML document; the parser's message, which shows the place.
    Syntax(String),
    /// A table of this kind has a field of this name, which it cannot have.
    UnknownField(Span, Scope, String),
    /// A value is of another type than the schema says, as the message explains.
    WrongType(Span, String),
    /// An entry of the environment at this place is refused.
    Entry(Span, EntryError),
    /// Two entries of the environment at this place have this key.
    DuplicateEntry(Span, String),
}

/// The mathematical content of a [`ConfigError`].
pub enum Fault {
    Syntax(Seq<char>),
    UnknownField(Span, Scope, Seq<char>),
    WrongType(Span, Seq<char>),
    Entry(Span, EntryError),
    DuplicateEntry(Span, Seq<char>),
}

impl View for ConfigError {
    type V = Fault;

    open spec fn view(&self) -> Fault {
        match self {
            ConfigError::Syntax(message) => Fault::Syntax(message@),
            ConfigError::UnknownField(place, scope, name) => Fault::UnknownField(
                *place,
                *scope,
                name@,
            ),
            ConfigError::WrongType(place, message) => Fault::WrongType(*place, message@),
            ConfigError::Entry(place, error) => Fault::Entry(*place, *error),
            ConfigError::DuplicateEntry(place, key) => Fault::DuplicateEntry(*place, key@),
        }
    }
}

impl Fault {
    /// The message shown for the error.
    pub open spec fn text(self) -> Seq<char> {
        match self {
            Fault::Syntax(message) => message,
            Fault::UnknownField(_, scope, name) => "unknown field `"@ + name + "`, expected "@
                + scope.choices(),
            Fault::WrongType(_, message) => message,
            Fault::Entry(_, error) => error.text(),
            Fault::DuplicateEntry(_, key) => "Duplicate environment variable entries: "@ + key,
        }
    }

    /// Where the fault lies, unless the message shows it.
    pub open spec fn place(self) -> Option<Span> {
        match self {
            Fault::Syntax(_) => None,
            Fault::UnknownField(place, _, _) => Some(place),
            Fault::WrongType(place, _) => Some(place),
            Fault::Entry(place, _) => Some(place),
            Fault::DuplicateEntry(place, _) => Some(place),
        }
    }
}

impl ConfigError {
    /// The message shown for the error.
    pub fn message(&self) -> (r: String)
        ensures
            r@ == self@.text(),
    {
        match self {
            ConfigError::Syntax(message) => message.clone(),
            ConfigError::UnknownField(_, scope, name) => concat_text(
                concat_text(
                    concat_text("unknown field `", name.as_str()).as_str(),
                    "`, expected ",
                ).as_str(),
                scope.choices_text().as_str(),
            ),
            ConfigError::WrongType(_, message) => message.clone(),
            ConfigError::Entry(_, error) => error.message(),
            ConfigError::DuplicateEntry(_, key) => concat_text(
                "Duplicate environment variable entries: ",
                key.as_str(),
            ),
        }
    }

    /// Where the fault lies, unless the message shows it.
    pub fn place(&self) -> (r: Option<Span>)
        ensures
            r == self@.place(),
    {
        match self {
            ConfigError::Syntax(_) => None,
            ConfigError::UnknownField(place, _, _) => Some(*place),
            ConfigError::WrongType(place, _) => Some(*place),
            ConfigError::Entry(place, _) => Some(*place),
            ConfigError::DuplicateEntry(place, _) => Some(*place),
        }
    }
}

/// How `serde` describes a string that it did not expect.
pub uninterp spec fn described_string(text: Seq<char>) -> Seq<char>;

/// Calls `to_string` on `serde::de::Unexpected::Str`, which describes a string. The
/// description depends on the string alone.
#[verifier::external_body]
fn describe_string(text: &str) -> (r: String)
    ensures
        r@ == described_string(text@),
{
    serde::de::Unexpected::Str(text).to_string()
}

/// How `serde` refuses a number where it expects a unit.
pub uninterp spec fn refused_number(text: Seq<char>) -> Seq<char>;

/// Calls `toml::de::ValueDeserializer::parse` on a text and reads the value as a
/// unit, which is refused, as no TOML value is one. The message depends on the text
/// alone.
#[verifier::external_body]
fn refuse_number(text: &str) -> (r: String)
    ensures
        r@ == refused_number(text@),
{
    ValueDeserializer::parse(text).and_then(<()>::deserialize).unwrap_err().message().to_owned()
}

/// That something was found where something else was expected.
pub open spec fn unexpected(found: Seq<char>, expected: Seq<char>) -> Seq<char> {
    "invalid type: "@ + found + ", expected "@ + expected
}

/// That something was found where something else was expected.
fn unexpected_text(found: &str, expected: &str) -> (r: String)
    ensures
        r@ == unexpected(found@, expected@),
{
    concat_text(
        concat_text(concat_text("invalid type: ", found).as_str(), ", expected ").as_str(),
        expected,
    )
}

/// Whether a text ends in another.
pub open spec fn ends_in(text: Seq<char>, end: Seq<char>) -> bool {
    text.len() >= end.len() && text.skip(text.len() - end.len()) == end
}

/// The message about a number that was found where something else was expected,
/// made from the one that a unit was expected. A number that is too large to be
/// read has a message of its own, which stays.
pub open spec fn unexpected_number(message: Seq<char>, expected: Seq<char>) -> Seq<char> {
    if ends_in(message, "unit"@) {
        message.take(message.len() - 4) + expected
    } else {
        message
    }
}

/// The message about a number that was found where something else was expected.
fn unexpected_number_text(message: &str, expected: &str) -> (r: String)
    ensures
        r@ == unexpected_number(message@, expected@),
{
    proof {
        reveal_strlit("unit");
        assert("unit"@.len() == 4);
    }
    let total: usize = message.unicode_len();
    if total >= 4 {
        let end: String = slice_text(message, total - 4, total);
        assert(end@ == message@.skip(total - 4));
        if same_text(end.as_str(), "unit") {
            let start: String = slice_text(message, 0, total - 4);
            assert(start@ == message@.take(total - 4));
            return concat_text(start.as_str(), expected);
        }
    }
    message.to_owned()
}

/// The message about a value that was found where something else was expected. A
/// date counts as a table.
pub open spec fn mismatch(document: Document, expected: Seq<char>) -> Seq<char> {
    match document {
        Document::Flag(_, flag) => unexpected(
            if flag {
                "boolean `true`"@
            } else {
                "boolean `false`"@
            },
            expected,
        ),
        Document::Text(_, text) => unexpected(described_string(text), expected),
        Document::Number(_, text) => unexpected_number(refused_number(text), expected),
        Document::Date(_, _) => unexpected("map"@, expected),
        Document::List(_, _) => unexpected("sequence"@, expected),
        Document::Table(_, _) => unexpected("map"@, expected),
    }
}

/// That a value is of another type than expected.
pub open spec fn wrong_type(document: Document, expected: Seq<char>) -> Fault {
    Fault::WrongType(document.place(), mismatch(document, expected))
}

/// That a value is of another type than expected.
fn refuse_type(node: &Node, expected: &str) -> (r: ConfigError)
    ensures
        r@ == wrong_type(node@, expected@),
{
    proof {
        crate::document::lemma_node_view(*node);
    }
    let message: String = match node {
        Node::Flag(_, flag) => if *flag {
            unexpected_text("boolean `true`", expected)
        } else {
            unexpected_text("boolean `false`", expected)
        },
        Node::Text(_, text) => unexpected_text(describe_string(text.as_str()).as_str(), expected),
        Node::Number(_, text) => unexpected_number_text(
            refuse_number(text.as_str()).as_str(),
            expected,
        ),
        Node::Date(_, _) => unexpected_text("map", expected),
        Node::List(_, _) => unexpected_text("sequence", expected),
        Node::Table(_, _) => unexpected_text("map", expected),
    };
    ConfigError::WrongType(node.place(), message)
}

/// What comes of items that are read one after the other: the fault of the first
/// that is refused, or the state after the last.
pub open spec fn folded<S, X>(
    start: S,
    items: Seq<X>,
    step: spec_fn(S, X) -> Result<S, Fault>,
) -> Result<S, Fault>
    decreases items.len(),
{
    if items.len() == 0 {
        Ok(start)
    } else {
        match folded(start, items.drop_last(), step) {
            Err(fault) => Err(fault),
            Ok(state) => step(state, items.last()),
        }
    }
}

/// A fault among the first items decides over all of them.
pub proof fn lemma_folded_fault<S, X>(
    start: S,
    items: Seq<X>,
    step: spec_fn(S, X) -> Result<S, Fault>,
    n: int,
)
    requires
        0 <= n <= items.len(),
        folded(start, items.take(n), step) is Err,
    ensures
        folded(start, items, step) == folded(start, items.take(n), step),
    decreases items.len(),
{
    if n < items.len() {
        assert(items.drop_last().take(n) =~= items.take(n));
        lemma_folded_fault(start, items.drop_last(), step, n);
    } else {
        assert(items.take(n) =~= items);
    }
}

/// One item more.
proof fn lemma_folded_step<S, X>(
    start: S,
    items: Seq<X>,
    step: spec_fn(S, X) -> Result<S, Fault>,
    n: int,
)
    requires
        0 <= n < items.len(),
        folded(start, items.take(n), step) is Ok,
    ensures
        folded(start, items.take(n + 1), step) == step(
            folded(start, items.take(n), step)->Ok_0,
            items[n],
        ),
{
    assert(items.take(n + 1).drop_last() =~= items.take(n));
}

/// An item that is refused in every state refuses them all.
proof fn lemma_folded_refused<S, X>(
    start: S,
    items: Seq<X>,
    step: spec_fn(S, X) -> Result<S, Fault>,
    i: int,
)
    requires
        0 <= i < items.len(),
        forall|state: S| (#[trigger] step(state, items[i])) is Err,
    ensures
        folded(start, items, step) is Err,
{
    if folded(start, items.take(i), step) is Ok {
        lemma_folded_step(start, items, step, i);
        lemma_folded_fault(start, items, step, i + 1);
    } else {
        lemma_folded_fault(start, items, step, i);
    }
}

/// What a boolean field says.
pub open spec fn decoded_flag(document: Document) -> Result<bool, Fault> {
    match document {
        Document::Flag(_, flag) => Ok(flag),
        _ => Err(wrong_type(document, "a boolean"@)),
    }
}

/// How the items of an array of paths are read.
pub open spec fn path_step() -> spec_fn(Seq<Seq<char>>, Document) -> Result<Seq<Seq<char>>, Fault> {
    |paths: Seq<Seq<char>>, item: Document|
        match item {
            Document::Text(_, path) => Ok(paths.push(path)),
            _ => Err(wrong_type(item, "path string"@)),
        }
}

/// What a field with paths says.
pub open spec fn decoded_paths(document: Document) -> Result<Seq<Seq<char>>, Fault> {
    match document {
        Document::List(_, items) => folded(Seq::empty(), items, path_step()),
        _ => Err(wrong_type(document, "a sequence"@)),
    }
}

/// How the items of an environment at the given place are read.
pub open spec fn entry_step(place: Span) -> spec_fn(Seq<Entry>, Document) -> Result<
    Seq<Entry>,
    Fault,
> {
    |env: Seq<Entry>, item: Document|
        match item {
            Document::Text(_, text) => match crate::environment::parsed_entry(text) {
                Ok(entry) => Ok(env.push(entry)),
                Err(error) => Err(Fault::Entry(place, error)),
            },
            _ => Err(wrong_type(item, "a string"@)),
        }
}

/// What the items of an environment mean, one by one.
pub open spec fn parsed_entries(place: Span, items: Seq<Document>) -> Result<Seq<Entry>, Fault> {
    folded(Seq::empty(), items, entry_step(place))
}

/// The first position at or behind `from` of an entry whose key occurs before it,
/// or the number of entries.
pub open spec fn repeat_position(env: Seq<Entry>, from: int) -> int
    decreases env.len() - from,
{
    if from >= env.len() {
        env.len() as int
    } else if crate::config::position(env, env[from].key, 0) < from {
        from
    } else {
        repeat_position(env, from + 1)
    }
}

/// What the items of an environment mean where no key may repeat.
pub open spec fn decoded_entries(place: Span, items: Seq<Document>) -> Result<Seq<Entry>, Fault> {
    match parsed_entries(place, items) {
        Err(fault) => Err(fault),
        Ok(env) => {
            let i = repeat_position(env, 0);
            if i < env.len() {
                Err(Fault::DuplicateEntry(place, env[i].key))
            } else {
                Ok(env)
            }
        },
    }
}

/// What a field with an environment says.
pub open spec fn decoded_env(document: Document) -> Result<Seq<Entry>, Fault> {
    match document {
        Document::List(place, items) => decoded_entries(place, items),
        _ => Err(wrong_type(document, "a sequence"@)),
    }
}

/// A tool with what a field of it says.
pub open spec fn with_field(tool: Tool, field: NamedDocument) -> Result<Tool, Fault> {
    if field.name == "network"@ {
        match decoded_flag(field.document) {
            Ok(flag) => Ok(Tool { network: Some(flag), ..tool }),
            Err(fault) => Err(fault),
        }
    } else if field.name == "inherit_env"@ {
        match decoded_flag(field.document) {
            Ok(flag) => Ok(Tool { inherit_env: Some(flag), ..tool }),
            Err(fault) => Err(fault),
        }
    } else if field.name == "mount"@ {
        match decoded_paths(field.document) {
            Ok(mount) => Ok(Tool { mount, ..tool }),
            Err(fault) => Err(fault),
        }
    } else if field.name == "env"@ {
        match decoded_env(field.document) {
            Ok(env) => Ok(Tool { env, ..tool }),
            Err(fault) => Err(fault),
        }
    } else {
        Err(Fault::UnknownField(field.place, Scope::Tool, field.name))
    }
}

/// How the fields of a tool are read.
pub open spec fn tool_step() -> spec_fn(Tool, NamedDocument) -> Result<Tool, Fault> {
    |tool: Tool, field: NamedDocument| with_field(tool, field)
}

/// What the fields of a tool say.
pub open spec fn decoded_fields(fields: Seq<NamedDocument>) -> Result<Tool, Fault> {
    folded(Tool::unset(), fields, tool_step())
}

/// The fields of a tool, in their order.
pub open spec fn field_names() -> Seq<Seq<char>> {
    seq!["network"@, "inherit_env"@, "mount"@, "env"@]
}

/// The items of an array as the fields of a tool, in their order. What comes behind
/// them is ignored.
pub open spec fn named_items(items: Seq<Document>) -> Seq<NamedDocument> {
    Seq::new(
        if items.len() < 4 {
            items.len()
        } else {
            4
        },
        |i: int|
            NamedDocument {
                place: items[i].place(),
                name: field_names()[i],
                document: items[i],
            },
    )
}

/// The name of the only field of a date, read as a table.
pub open spec fn date_field() -> Seq<char> {
    "$__toml_private_datetime"@
}

/// What stands under the name of a tool, or under `global`, says.
pub open spec fn decoded_tool(document: Document) -> Result<Tool, Fault> {
    match document {
        Document::Table(_, fields) => decoded_fields(fields),
        Document::List(_, items) => decoded_fields(named_items(items)),
        Document::Date(place, _) => Err(Fault::UnknownField(place, Scope::Tool, date_field())),
        _ => Err(wrong_type(document, "struct ToolConfig"@)),
    }
}

/// How the tools are read.
pub open spec fn tools_step() -> spec_fn(Seq<(Seq<char>, Tool)>, NamedDocument) -> Result<
    Seq<(Seq<char>, Tool)>,
    Fault,
> {
    |tools: Seq<(Seq<char>, Tool)>, field: NamedDocument|
        match decoded_tool(field.document) {
            Ok(tool) => Ok(tools.push((field.name, tool))),
            Err(fault) => Err(fault),
        }
}

/// What stands under `tools` says. A date counts as a table whose only field is a
/// string.
pub open spec fn decoded_tools(document: Document) -> Result<Seq<(Seq<char>, Tool)>, Fault> {
    match document {
        Document::Table(_, fields) => folded(Seq::empty(), fields, tools_step()),
        Document::Date(place, text) => Err(
            Fault::WrongType(place, unexpected(described_string(text), "struct ToolConfig"@)),
        ),
        _ => Err(wrong_type(document, "a map"@)),
    }
}

/// A configuration that says nothing.
pub open spec fn unset_configuration() -> Configuration {
    Configuration { global: Tool::unset(), tools: Seq::empty() }
}

/// A configuration with what a field of it says.
pub open spec fn with_part(config: Configuration, field: NamedDocument) -> Result<
    Configuration,
    Fault,
> {
    if field.name == "global"@ {
        match decoded_tool(field.document) {
            Ok(global) => Ok(Configuration { global, ..config }),
            Err(fault) => Err(fault),
        }
    } else if field.name == "tools"@ {
        match decoded_tools(field.document) {
            Ok(tools) => Ok(Configuration { tools, ..config }),
            Err(fault) => Err(fault),
        }
    } else {
        Err(Fault::UnknownField(field.place, Scope::Config, field.name))
    }
}

/// How the fields of a configuration are read.
pub open spec fn config_step() -> spec_fn(Configuration, NamedDocument) -> Result<
    Configuration,
    Fault,
> {
    |config: Configuration, field: NamedDocument| with_part(config, field)
}

/// What the fields of a configuration say, before defaults apply.
pub open spec fn decoded_parts(fields: Seq<NamedDocument>) -> Result<Configuration, Fault> {
    folded(unset_configuration(), fields, config_step())
}

/// What a document says as a configuration.
pub open spec fn decoded_config(document: Document) -> Result<Configuration, Fault> {
    match document {
        Document::Table(_, fields) => match decoded_parts(fields) {
            Ok(config) => Ok(Configuration { global: config.global.with_defaults(), ..config }),
            Err(fault) => Err(fault),
        },
        _ => Err(wrong_type(document, "struct Config"@)),
    }
}

/// What a text says as a configuration.
pub open spec fn configuration(text: Seq<char>) -> Result<Configuration, Fault> {
    match crate::document::toml_document(text) {
        Err(message) => Err(Fault::Syntax(message)),
        Ok(document) => decoded_config(document),
    }
}

/// Reads a boolean field.
fn decode_flag(node: &Node) -> (r: Result<bool, ConfigError>)
    ensures
        match r {
            Ok(flag) => decoded_flag(node@) == Ok::<bool, Fault>(flag),
            Err(error) => decoded_flag(node@) == Err::<bool, Fault>(error@),
        },
{
    proof {
        crate::document::lemma_node_view(*node);
    }
    match node {
        Node::Flag(_, flag) => Ok(*flag),
        _ => Err(refuse_type(node, "a boolean")),
    }
}

/// Reads a field with paths.
fn decode_paths(node: &Node) -> (r: Result<Vec<String>, ConfigError>)
    ensures
        match r {
            Ok(paths) => decoded_paths(node@) == Ok::<Seq<Seq<char>>, Fault>(
                crate::config::texts_view(paths@),
            ),
            Err(error) => decoded_paths(node@) == Err::<Seq<Seq<char>>, Fault>(error@),
        },
{
    proof {
        crate::document::lemma_node_view(*node);
    }
    let items: &Vec<Node> = match node {
        Node::List(_, items) => items,
        _ => {
            return Err(refuse_type(node, "a sequence"));
        },
    };
    let ghost view = crate::document::items_view(items@);
    let ghost none: Seq<Seq<char>> = Seq::empty();
    let mut paths: Vec<String> = Vec::new();
    assert(crate::config::texts_view(paths@) =~= none);
    let mut k: usize = 0;
    while k < items.len()
        invariant
            k <= items@.len(),
            view == crate::document::items_view(items@),
            none == Seq::<Seq<char>>::empty(),
            decoded_paths(node@) == folded(none, view, path_step()),
            folded(none, view.take(k as int), path_step()) == Ok::<Seq<Seq<char>>, Fault>(
                crate::config::texts_view(paths@),
            ),
        decreases items@.len() - k,
    {
        proof {
            lemma_folded_step(none, view, path_step(), k as int);
            crate::document::lemma_node_view(items@[k as int]);
            assert(view[k as int] == items@[k as int]@);
        }
        match &items[k] {
            Node::Text(_, path) => {
                let ghost before = crate::config::texts_view(paths@);
                paths.push(path.clone());
                assert(crate::config::texts_view(paths@) =~= before.push(path@));
            },
            _ => {
                proof {
                    lemma_folded_fault(none, view, path_step(), k + 1);
                }
                return Err(refuse_type(&items[k], "path string"));
            },
        }
        k = k + 1;
    }
    assert(view.take(view.len() as int) =~= view);
    Ok(paths)
}

/// Reads the items of an environment at the given place, in which no key may
/// repeat.
pub fn decode_entries(place: Span, items: &Vec<Node>) -> (r: Result<
    Vec<EnvironmentVariable>,
    ConfigError,
>)
    ensures
        match r {
            Ok(env) => decoded_entries(place, crate::document::items_view(items@)) == Ok::<
                Seq<Entry>,
                Fault,
            >(crate::config::env_view(env@)),
            Err(error) => decoded_entries(place, crate::document::items_view(items@)) == Err::<
                Seq<Entry>,
                Fault,
            >(error@),
        },
{
    let ghost view = crate::document::items_view(items@);
    let ghost none: Seq<Entry> = Seq::empty();
    let mut env: Vec<EnvironmentVariable> = Vec::new();
    assert(crate::config::env_view(env@) =~= none);
    let mut k: usize = 0;
    while k < items.len()
        invariant
            k <= items@.len(),
            view == crate::document::items_view(items@),
            none == Seq::<Entry>::empty(),
            folded(none, view.take(k as int), entry_step(place)) == Ok::<Seq<Entry>, Fault>(
                crate::config::env_view(env@),
            ),
        decreases items@.len() - k,
    {
        proof {
            lemma_folded_step(none, view, entry_step(place), k as int);
            if folded(none, view.take(k + 1), entry_step(place)) is Err {
                lemma_folded_fault(none, view, entry_step(place), k + 1);
            }
            crate::document::lemma_node_view(items@[k as int]);
            assert(view[k as int] == items@[k as int]@);
        }
        match &items[k] {
            Node::Text(_, text) => match EnvironmentVariable::deserialize(text.as_str()) {
                Ok(variable) => {
                    let ghost before = crate::config::env_view(env@);
                    env.push(variable);
                    assert(crate::config::env_view(env@) =~= before.push(variable@));
                },
                Err(error) => {
                    return Err(ConfigError::Entry(place, error));
                },
            },
            _ => {
                return Err(refuse_type(&items[k], "a string"));
            },
        }
        k = k + 1;
    }
    assert(view.take(view.len() as int) =~= view);
    let ghost entries = crate::config::env_view(env@);
    let mut i: usize = 0;
    while i < env.len()
        invariant
            i <= env@.len(),
            view == crate::document::items_view(items@),
            entries == crate::config::env_view(env@),
            parsed_entries(place, view) == Ok::<Seq<Entry>, Fault>(entries),
            repeat_position(entries, 0) == repeat_position(entries, i as int),
        decreases env@.len() - i,
    {
        assert(entries[i as int] == env@[i as int]@);
        if find_variable(&env, &env[i].key) < i {
            return Err(ConfigError::DuplicateEntry(place, env[i].key.clone()));
        }
        i = i + 1;
    }
    Ok(env)
}

/// Reads a field with an environment.
fn decode_env(node: &Node) -> (r: Result<Vec<EnvironmentVariable>, ConfigError>)
    ensures
        match r {
            Ok(env) => decoded_env(node@) == Ok::<Seq<Entry>, Fault>(
                crate::config::env_view(env@),
            ),
            Err(error) => decoded_env(node@) == Err::<Seq<Entry>, Fault>(error@),
        },
{
    proof {
        crate::document::lemma_node_view(*node);
    }
    match node {
        Node::List(place, items) => decode_entries(*place, items),
        _ => Err(refuse_type(node, "a sequence")),
    }
}

/// Puts what a field says into a tool.
fn put_field(tool: ToolConfig, place: Span, name: &str, node: &Node) -> (r: Result<
    ToolConfig,
    ConfigError,
>)
    ensures
        ({
            let said = with_field(
                tool@,
                (NamedDocument { place, name: name@, document: node@ }),
            );
            match r {
                Ok(tool) => said == Ok::<Tool, Fault>(tool@),
                Err(error) => said == Err::<Tool, Fault>(error@),
            }
        }),
{
    if same_text(name, "network") {
        match decode_flag(node) {
            Ok(flag) => Ok(
                ToolConfig {
                    network: Some(flag),
                    inherit_env: tool.inherit_env,
                    mount: tool.mount,
                    env: tool.env,
                },
            ),
            Err(error) => Err(error),
        }
    } else if same_text(name, "inherit_env") {
        match decode_flag(node) {
            Ok(flag) => Ok(
                ToolConfig {
                    network: tool.network,
                    inherit_env: Some(flag),
                    mount: tool.mount,
                    env: tool.env,
                },
            ),
            Err(error) => Err(error),
        }
    } else if same_text(name, "mount") {
        match decode_paths(node) {
            Ok(mount) => Ok(
                ToolConfig {
                    network: tool.network,
                    inherit_env: tool.inherit_env,
                    mount,
                    env: tool.env,
                },
            ),
            Err(error) => Err(error),
        }
    } else if same_text(name, "env") {
        match decode_env(node) {
            Ok(env) => Ok(
                ToolConfig {
                    network: tool.network,
                    inherit_env: tool.inherit_env,
                    mount: tool.mount,
                    env,
                },
            ),
            Err(error) => Err(error),
        }
    } else {
        Err(ConfigError::UnknownField(place, Scope::Tool, name.to_owned()))
    }
}

/// Reads the table of a tool.
fn decode_fields(fields: &Vec<NamedNode>) -> (r: Result<ToolConfig, ConfigError>)
    ensures
        match r {
            Ok(tool) => decoded_fields(crate::document::fields_view(fields@)) == Ok::<Tool, Fault>(
                tool@,
            ),
            Err(error) => decoded_fields(crate::document::fields_view(fields@)) == Err::<
                Tool,
                Fault,
            >(error@),
        },
{
    let ghost view = crate::document::fields_view(fields@);
    let mut tool: ToolConfig = ToolConfig::default();
    let mut k: usize = 0;
    while k < fields.len()
        invariant
            k <= fields@.len(),
            view == crate::document::fields_view(fields@),
            decoded_fields(view.take(k as int)) == Ok::<Tool, Fault>(tool@),
        decreases fields@.len() - k,
    {
        proof {
            lemma_folded_step(Tool::unset(), view, tool_step(), k as int);
            assert(view[k as int] == fields@[k as int]@);
        }
        let field: &NamedNode = &fields[k];
        match put_field(tool, field.place, field.name.as_str(), &field.node) {
            Ok(next) => {
                tool = next;
            },
            Err(error) => {
                proof {
                    lemma_folded_fault(Tool::unset(), view, tool_step(), k + 1);
                }
                return Err(error);
            },
        }
        k = k + 1;
    }
    assert(view.take(view.len() as int) =~= view);
    Ok(tool)
}

/// The name of the field that an item of an array stands for.
fn field_name(i: usize) -> (r: String)
    requires
        i < 4,
    ensures
        r@ == field_names()[i as int],
{
    if i == 0 {
        "network".to_owned()
    } else if i == 1 {
        "inherit_env".to_owned()
    } else if i == 2 {
        "mount".to_owned()
    } else {
        "env".to_owned()
    }
}

/// Reads an array as the fields of a tool, in their order.
fn decode_items(items: &Vec<Node>) -> (r: Result<ToolConfig, ConfigError>)
    ensures
        ({
            let said = decoded_fields(named_items(crate::document::items_view(items@)));
            match r {
                Ok(tool) => said == Ok::<Tool, Fault>(tool@),
                Err(error) => said == Err::<Tool, Fault>(error@),
            }
        }),
{
    let ghost view = named_items(crate::document::items_view(items@));
    let mut tool: ToolConfig = ToolConfig::default();
    let mut k: usize = 0;
    while k < 4 && k < items.len()
        invariant
            k <= view.len(),
            view == named_items(crate::document::items_view(items@)),
            decoded_fields(view.take(k as int)) == Ok::<Tool, Fault>(tool@),
        decreases items@.len() - k,
    {
        proof {
            lemma_folded_step(Tool::unset(), view, tool_step(), k as int);
        }
        let name: String = field_name(k);
        match put_field(tool, items[k].place(), name.as_str(), &items[k]) {
            Ok(next) => {
                tool = next;
            },
            Err(error) => {
                proof {
                    lemma_folded_fault(Tool::unset(), view, tool_step(), k + 1);
                }
                return Err(error);
            },
        }
        k = k + 1;
    }
    assert(view.take(view.len() as int) =~= view);
    Ok(tool)
}

/// Reads what stands under the name of a tool, or under `global`.
fn decode_tool(node: &Node) -> (r: Result<ToolConfig, ConfigError>)
    ensures
        match r {
            Ok(tool) => decoded_tool(node@) == Ok::<Tool, Fault>(tool@),
            Err(error) => decoded_tool(node@) == Err::<Tool, Fault>(error@),
        },
{
    proof {
        crate::document::lemma_node_view(*node);
    }
    match node {
        Node::Table(_, fields) => decode_fields(fields),
        Node::List(_, items) => decode_items(items),
        Node::Date(place, _) => Err(
            ConfigError::UnknownField(*place, Scope::Tool, "$__toml_private_datetime".to_owned()),
        ),
        _ => Err(refuse_type(node, "struct ToolConfig")),
    }
}

/// Reads what stands under `tools`.
fn decode_tools(node: &Node) -> (r: Result<Vec<(String, ToolConfig)>, ConfigError>)
    ensures
        match r {
            Ok(tools) => decoded_tools(node@) == Ok::<Seq<(Seq<char>, Tool)>, Fault>(
                crate::config::tools_view(tools@),
            ),
            Err(error) => decoded_tools(node@) == Err::<Seq<(Seq<char>, Tool)>, Fault>(error@),
        },
{
    proof {
        crate::document::lemma_node_view(*node);
    }
    let fields: &Vec<NamedNode> = match node {
        Node::Table(_, fields) => fields,
        Node::Date(place, text) => {
            let found: String = describe_string(text.as_str());
            return Err(
                ConfigError::WrongType(
                    *place,
                    unexpected_text(found.as_str(), "struct ToolConfig"),
                ),
            );
        },
        _ => {
            return Err(refuse_type(node, "a map"));
        },
    };
    let ghost view = crate::document::fields_view(fields@);
    let ghost none: Seq<(Seq<char>, Tool)> = Seq::empty();
    let mut tools: Vec<(String, ToolConfig)> = Vec::new();
    assert(crate::config::tools_view(tools@) =~= none);
    let mut k: usize = 0;
    while k < fields.len()
        invariant
            k <= fields@.len(),
            view == crate::document::fields_view(fields@),
            none == Seq::<(Seq<char>, Tool)>::empty(),
            decoded_tools(node@) == folded(none, view, tools_step()),
            folded(none, view.take(k as int), tools_step()) == Ok::<Seq<(Seq<char>, Tool)>, Fault>(
                crate::config::tools_view(tools@),
            ),
        decreases fields@.len() - k,
    {
        proof {
            lemma_folded_step(none, view, tools_step(), k as int);
            assert(view[k as int] == fields@[k as int]@);
        }
        match decode_tool(&fields[k].node) {
            Ok(tool) => {
                let ghost before = crate::config::tools_view(tools@);
                let name: String = fields[k].name.clone();
                tools.push((name, tool));
                assert(crate::config::tools_view(tools@) =~= before.push((name@, tool@)));
            },
            Err(error) => {
                proof {
                    lemma_folded_fault(none, view, tools_step(), k + 1);
                }
                return Err(error);
            },
        }
        k = k + 1;
    }
    assert(view.take(view.len() as int) =~= view);
    Ok(tools)
}

/// Puts what a field says into a configuration.
fn put_part(config: Config, field: &NamedNode) -> (r: Result<Config, ConfigError>)
    ensures
        match r {
            Ok(config2) => with_part(config@, field@) == Ok::<Configuration, Fault>(config2@),
            Err(error) => with_part(config@, field@) == Err::<Configuration, Fault>(error@),
        },
{
    if same_text(field.name.as_str(), "global") {
        match decode_tool(&field.node) {
            Ok(global) => Ok(Config { global, tools: config.tools }),
            Err(error) => Err(error),
        }
    } else if same_text(field.name.as_str(), "tools") {
        match decode_tools(&field.node) {
            Ok(tools) => Ok(Config { global: config.global, tools }),
            Err(error) => Err(error),
        }
    } else {
        Err(ConfigError::UnknownField(field.place, Scope::Config, field.name.clone()))
    }
}

/// Reads a document as a configuration.
pub fn decode_config(document: &Node) -> (r: Result<Config, ConfigError>)
    ensures
        match r {
            Ok(config) => {
                &&& decoded_config(document@) == Ok::<Configuration, Fault>(config@)
                &&& crate::document::tidy(document@) ==> config@.well_formed()
            },
            Err(error) => decoded_config(document@) == Err::<Configuration, Fault>(error@),
        },
{
    proof {
        crate::document::lemma_node_view(*document);
        if crate::document::tidy(document@) {
            accepted_configurations_are_well_formed(document@);
        }
    }
    let fields: &Vec<NamedNode> = match document {
        Node::Table(_, fields) => fields,
        _ => {
            return Err(refuse_type(document, "struct Config"));
        },
    };
    let ghost view = crate::document::fields_view(fields@);
    let mut config: Config = Config { global: ToolConfig::default(), tools: Vec::new() };
    assert(config@ =~= unset_configuration());
    let mut k: usize = 0;
    while k < fields.len()
        invariant
            k <= fields@.len(),
            view == crate::document::fields_view(fields@),
            decoded_config(document@) == decoded_config(
                Document::Table(document@.place(), view),
            ),
            decoded_parts(view.take(k as int)) == Ok::<Configuration, Fault>(config@),
        decreases fields@.len() - k,
    {
        proof {
            lemma_folded_step(unset_configuration(), view, config_step(), k as int);
            assert(view[k as int] == fields@[k as int]@);
        }
        match put_part(config, &fields[k]) {
            Ok(next) => {
                config = next;
            },
            Err(error) => {
                proof {
                    lemma_folded_fault(unset_configuration(), view, config_step(), k + 1);
                }
                return Err(error);
            },
        }
        k = k + 1;
    }
    assert(view.take(view.len() as int) =~= view);
    Ok(Config { global: apply_defaults(config.global), tools: config.tools })
}

/// Reads the text of a configuration file.
pub fn parse_config(text: &str) -> (r: Result<Config, ConfigError>)
    ensures
        match r {
            Ok(config) => {
                &&& configuration(text@) == Ok::<Configuration, Fault>(config@)
                &&& config@.well_formed()
            },
            Err(error) => configuration(text@) == Err::<Configuration, Fault>(error@),
        },
{
    match parse_document(text) {
        Ok(document) => decode_config(&document),
        Err(message) => Err(ConfigError::Syntax(message)),
    }
}

/// Whether a table of the given kind can have a field of the given name.
pub open spec fn known_field(scope: Scope, name: Seq<char>) -> bool {
    match scope {
        Scope::Config => name == "global"@ || name == "tools"@,
        Scope::Tool => field_names().contains(name),
    }
}

proof fn lemma_field_names()
    ensures
        field_names().contains("network"@),
        field_names().contains("inherit_env"@),
        field_names().contains("mount"@),
        field_names().contains("env"@),
{
    assert(field_names()[0] == "network"@);
    assert(field_names()[1] == "inherit_env"@);
    assert(field_names()[2] == "mount"@);
    assert(field_names()[3] == "env"@);
}

/// The first fault of a document is the one that is reported, whatever comes behind
/// it.
pub proof fn first_fault_is_reported(place: Span, fields: Seq<NamedDocument>, n: int)
    requires
        0 <= n <= fields.len(),
        decoded_config(Document::Table(place, fields.take(n))) is Err,
    ensures
        decoded_config(Document::Table(place, fields)) == decoded_config(
            Document::Table(place, fields.take(n)),
        ),
{
    lemma_folded_fault(unset_configuration(), fields, config_step(), n);
}

/// A document with a field that it cannot have is refused, and for that field
/// where those before it are in order.
pub proof fn unknown_fields_are_refused(place: Span, fields: Seq<NamedDocument>, i: int)
    requires
        0 <= i < fields.len(),
        !known_field(Scope::Config, fields[i].name),
    ensures
        decoded_config(Document::Table(place, fields)) is Err,
        decoded_config(Document::Table(place, fields.take(i))) is Ok ==> decoded_config(
            Document::Table(place, fields),
        ) == Err::<Configuration, Fault>(
            Fault::UnknownField(fields[i].place, Scope::Config, fields[i].name),
        ),
{
    lemma_folded_refused(unset_configuration(), fields, config_step(), i);
    if decoded_parts(fields.take(i)) is Ok {
        lemma_folded_step(unset_configuration(), fields, config_step(), i);
        lemma_folded_fault(unset_configuration(), fields, config_step(), i + 1);
    }
}

/// A tool with a field that it cannot have is refused, and for that field where
/// those before it are in order.
pub proof fn unknown_tool_fields_are_refused(fields: Seq<NamedDocument>, i: int)
    requires
        0 <= i < fields.len(),
        !known_field(Scope::Tool, fields[i].name),
    ensures
        decoded_fields(fields) is Err,
        decoded_fields(fields.take(i)) is Ok ==> decoded_fields(fields) == Err::<Tool, Fault>(
            Fault::UnknownField(fields[i].place, Scope::Tool, fields[i].name),
        ),
{
    lemma_field_names();
    lemma_folded_refused(Tool::unset(), fields, tool_step(), i);
    if decoded_fields(fields.take(i)) is Ok {
        lemma_folded_step(Tool::unset(), fields, tool_step(), i);
        lemma_folded_fault(Tool::unset(), fields, tool_step(), i + 1);
    }
}

/// A configuration is refused if its global part is, or any of its tools, also
/// one that is not run.
pub proof fn refused_parts_refuse_the_whole(place: Span, fields: Seq<NamedDocument>, i: int)
    requires
        0 <= i < fields.len(),
    ensures
        fields[i].name == "global"@ && decoded_tool(fields[i].document) is Err ==> decoded_config(
            Document::Table(place, fields),
        ) is Err,
        fields[i].name == "tools"@ ==> (fields[i].document matches Document::Table(_, tools)
            ==> forall|k: int|
            0 <= k < tools.len() && decoded_tool((#[trigger] tools[k]).document) is Err
                ==> decoded_config(Document::Table(place, fields)) is Err),
{
    reveal_strlit("global");
    reveal_strlit("tools");
    assert("global"@.len() != "tools"@.len());
    if fields[i].name == "global"@ && decoded_tool(fields[i].document) is Err {
        lemma_folded_refused(unset_configuration(), fields, config_step(), i);
    }
    if fields[i].name == "tools"@ {
        if let Document::Table(_, tools) = fields[i].document {
            assert forall|k: int|
                0 <= k < tools.len() && decoded_tool(
                    (#[trigger] tools[k]).document,
                ) is Err implies decoded_config(Document::Table(place, fields)) is Err by {
                lemma_folded_refused(
                    Seq::<(Seq<char>, Tool)>::empty(),
                    tools,
                    tools_step(),
                    k,
                );
                lemma_folded_refused(unset_configuration(), fields, config_step(), i);
            }
        }
    }
}

proof fn lemma_repeat_position(env: Seq<Entry>, from: int)
    requires
        0 <= from <= env.len(),
    ensures
        from <= repeat_position(env, from) <= env.len(),
        repeat_position(env, from) < env.len() ==> crate::config::position(
            env,
            env[repeat_position(env, from)].key,
            0,
        ) < repeat_position(env, from),
        forall|k: int|
            from <= k < repeat_position(env, from) ==> crate::config::position(
                env,
                (#[trigger] env[k]).key,
                0,
            ) >= k,
    decreases env.len() - from,
{
    if from < env.len() && crate::config::position(env, env[from].key, 0) >= from {
        lemma_repeat_position(env, from + 1);
    }
}

/// Whether a key occurs twice.
pub open spec fn repeated(env: Seq<Entry>, key: Seq<char>) -> bool {
    exists|i: int, j: int|
        0 <= i < j < env.len() && (#[trigger] env[i]).key == key && (#[trigger] env[j]).key == key
}

/// Entries that are accepted one by one are accepted together exactly if no key
/// occurs twice. Otherwise a repeated key is reported.
pub proof fn duplicate_entries_are_refused(place: Span, items: Seq<Document>)
    ensures
        parsed_entries(place, items) matches Ok(env) ==> {
            &&& decoded_entries(place, items) is Ok <==> crate::config::distinct_keys(env)
            &&& decoded_entries(place, items) is Err ==> (decoded_entries(place, items) matches Err(
                Fault::DuplicateEntry(at, key),
            ) && at == place && repeated(env, key))
        },
{
    if let Ok(env) = parsed_entries(place, items) {
        lemma_repeat_position(env, 0);
        let i = repeat_position(env, 0);
        if i < env.len() {
            crate::config::lemma_position(env, env[i].key, 0);
            assert(env[crate::config::position(env, env[i].key, 0)].key == env[i].key);
        } else {
            assert forall|a: int, b: int| 0 <= a < b < env.len() implies (#[trigger] env[a]).key
                != (#[trigger] env[b]).key by {
                crate::config::lemma_position(env, env[b].key, 0);
            }
        }
    }
}

/// Entries are read exactly from strings that are entries: there are as many as
/// items, and each is what its item says.
pub proof fn entries_are_read_one_by_one(place: Span, items: Seq<Document>)
    ensures
        parsed_entries(place, items) is Ok <==> forall|i: int|
            0 <= i < items.len() ==> (#[trigger] items[i] matches Document::Text(_, text)
                && crate::environment::parsed_entry(text) is Ok),
        parsed_entries(place, items) matches Ok(env) ==> {
            &&& env.len() == items.len()
            &&& forall|i: int|
                0 <= i < items.len() ==> (#[trigger] items[i] matches Document::Text(_, text)
                    && crate::environment::parsed_entry(text) == Ok::<Entry, EntryError>(env[i]))
        },
    decreases items.len(),
{
    if items.len() > 0 {
        let rest = items.drop_last();
        entries_are_read_one_by_one(place, rest);
        assert(items[items.len() - 1] == items.last());
        assert(parsed_entries(place, rest) is Ok ==> parsed_entries(place, items) == entry_step(
            place,
        )(parsed_entries(place, rest)->Ok_0, items.last()));
        if parsed_entries(place, rest) is Err {
            let i = choose|i: int|
                0 <= i < rest.len() && !(#[trigger] rest[i] matches Document::Text(_, text)
                    && crate::environment::parsed_entry(text) is Ok);
            assert(items[i] == rest[i]);
        } else {
            assert forall|i: int| 0 <= i < rest.len() implies (#[trigger] items[i] matches
                Document::Text(_, text) && crate::environment::parsed_entry(text) is Ok) by {
                assert(rest[i] == items[i]);
            }
            if let Ok(env) = parsed_entries(place, items) {
                assert forall|i: int| 0 <= i < items.len() implies (#[trigger] items[i] matches
                    Document::Text(_, text) && crate::environment::parsed_entry(text) == Ok::<
                    Entry,
                    EntryError,
                >(env[i])) by {
                    if i < rest.len() {
                        assert(rest[i] == items[i]);
                    }
                }
            }
        }
    }
}

/// Accepted entries are valid, and stand in the order in which they were written.
pub proof fn accepted_entries_keep_their_order(place: Span, items: Seq<Document>)
    ensures
        parsed_entries(place, items) matches Ok(env) ==> {
            &&& env.len() == items.len()
            &&& forall|i: int|
                0 <= i < env.len() ==> {
                    &&& (#[trigger] env[i]).valid()
                    &&& items[i] matches Document::Text(_, text)
                    &&& env[i].written() == text
                }
        },
{
    entries_are_read_one_by_one(place, items);
    if let Ok(env) = parsed_entries(place, items) {
        assert forall|i: int| 0 <= i < env.len() implies {
            &&& (#[trigger] env[i]).valid()
            &&& items[i] matches Document::Text(_, text)
            &&& env[i].written() == text
        } by {
            assert(items[i] is Text);
            crate::environment::read_entries_write_back(items[i]->Text_1);
        }
    }
}

proof fn lemma_decoded_fields_proper(fields: Seq<NamedDocument>)
    ensures
        decoded_fields(fields) matches Ok(tool) ==> tool.proper_env(),
    decreases fields.len(),
{
    if fields.len() > 0 {
        lemma_decoded_fields_proper(fields.drop_last());
        if let Document::List(place, items) = fields.last().document {
            accepted_entries_keep_their_order(place, items);
            duplicate_entries_are_refused(place, items);
        }
    }
}

proof fn lemma_decoded_tool_proper(document: Document)
    ensures
        decoded_tool(document) matches Ok(tool) ==> tool.proper_env(),
{
    match document {
        Document::Table(_, fields) => lemma_decoded_fields_proper(fields),
        Document::List(_, items) => lemma_decoded_fields_proper(named_items(items)),
        _ => {},
    }
}

proof fn lemma_decoded_tools_proper(fields: Seq<NamedDocument>)
    ensures
        folded(Seq::<(Seq<char>, Tool)>::empty(), fields, tools_step()) matches Ok(tools) ==> {
            &&& tools.len() == fields.len()
            &&& forall|i: int|
                0 <= i < tools.len() ==> (#[trigger] tools[i]).1.proper_env() && tools[i].0
                    == fields[i].name
        },
    decreases fields.len(),
{
    if fields.len() > 0 {
        lemma_decoded_tools_proper(fields.drop_last());
        lemma_decoded_tool_proper(fields.last().document);
    }
}

proof fn lemma_decoded_parts_proper(fields: Seq<NamedDocument>)
    requires
        forall|i: int|
            0 <= i < fields.len() ==> crate::document::tidy((#[trigger] fields[i]).document),
    ensures
        decoded_parts(fields) matches Ok(config) ==> {
            &&& config.global.proper_env()
            &&& forall|i: int|
                0 <= i < config.tools.len() ==> (#[trigger] config.tools[i]).1.proper_env()
            &&& crate::config::distinct_tools(config.tools)
        },
    decreases fields.len(),
{
    if fields.len() > 0 {
        let rest = fields.drop_last();
        assert forall|i: int| 0 <= i < rest.len() implies crate::document::tidy(
            (#[trigger] rest[i]).document,
        ) by {
            assert(rest[i] == fields[i]);
        }
        lemma_decoded_parts_proper(rest);
        let document = fields.last().document;
        assert(crate::document::tidy(fields[fields.len() - 1].document));
        lemma_decoded_tool_proper(document);
        if let Document::Table(_, tools) = document {
            lemma_decoded_tools_proper(tools);
            assert(crate::document::distinct_names(tools));
        }
    }
}

/// Every configuration that is accepted is well-formed, if the document names
/// nothing twice.
pub proof fn accepted_configurations_are_well_formed(document: Document)
    requires
        crate::document::tidy(document),
    ensures
        decoded_config(document) matches Ok(config) ==> config.well_formed(),
{
    if let Document::Table(_, fields) = document {
        lemma_decoded_parts_proper(fields);
    }
}

/// The fields of a tool mean the same in an array, in their order, and in a table,
/// under their names. What comes behind them in the array is ignored.
pub proof fn listed_fields_mean_what_named_ones_mean(
    place: Span,
    network: NamedDocument,
    inherit_env: NamedDocument,
    mount: NamedDocument,
    env: NamedDocument,
    rest: Seq<Document>,
)
    requires
        network.name == "network"@,
        inherit_env.name == "inherit_env"@,
        mount.name == "mount"@,
        env.name == "env"@,
    ensures
        decoded_tool(
            Document::List(
                place,
                seq![network.document, inherit_env.document, mount.document, env.document] + rest,
            ),
        ) == decoded_tool(Document::Table(place, seq![network, inherit_env, mount, env])),
{
    let items = seq![network.document, inherit_env.document, mount.document, env.document] + rest;
    let listed = named_items(items);
    let named = seq![network, inherit_env, mount, env];
    lemma_same_fields(listed, named, 4);
    assert(listed.take(4) =~= listed);
    assert(named.take(4) =~= named);
}

proof fn lemma_same_fields(a: Seq<NamedDocument>, b: Seq<NamedDocument>, n: int)
    requires
        0 <= n <= a.len(),
        n <= b.len(),
        forall|i: int|
            0 <= i < n ==> (#[trigger] a[i]).name == (#[trigger] b[i]).name && a[i].document
                == b[i].document && field_names().contains(a[i].name),
    ensures
        decoded_fields(a.take(n)) == decoded_fields(b.take(n)),
    decreases n,
{
    if n > 0 {
        lemma_same_fields(a, b, n - 1);
        assert(a.take(n).drop_last() =~= a.take(n - 1));
        assert(b.take(n).drop_last() =~= b.take(n - 1));
        let k = field_names().index_of(a[n - 1].name);
        assert(field_names()[k] == a[n - 1].name);
        assert(a[n - 1].name == b[n - 1].name);
    } else {
        assert(a.take(0) =~= b.take(0));
    }
}

/// An empty table and an empty array both leave everything unset.
pub proof fn empty_tools_are_unset(place: Span)
    ensures
        decoded_tool(Document::Table(place, Seq::empty())) == Ok::<Tool, Fault>(Tool::unset()),
        decoded_tool(Document::List(place, Seq::empty())) == Ok::<Tool, Fault>(Tool::unset()),
{
    assert(named_items(Seq::empty()).len() == 0);
}

/// An empty document says what the standard configuration says.
pub proof fn empty_document_is_standard(place: Span)
    ensures
        decoded_config(Document::Table(place, Seq::empty())) == Ok::<Configuration, Fault>(
            Configuration::standard(),
        ),
{
}

/// Errors show what they hold.
pub proof fn errors_show_what_they_hold(error: ConfigError)
    ensures
        error matches ConfigError::Syntax(message) ==> error@ == Fault::Syntax(message@),
        error matches ConfigError::UnknownField(place, scope, name) ==> error@
            == Fault::UnknownField(place, scope, name@),
        error matches ConfigError::WrongType(place, message) ==> error@ == Fault::WrongType(
            place,
            message@,
        ),
        error matches ConfigError::Entry(place, reason) ==> error@ == Fault::Entry(place, reason),
        error matches ConfigError::DuplicateEntry(place, key) ==> error@ == Fault::DuplicateEntry(
            place,
            key@,
        ),
{
}

/// Messages name what is wrong, and where.
pub proof fn messages_name_what_is_wrong(
    place: Span,
    text: Seq<char>,
    reason: EntryError,
    scope: Scope,
)
    ensures
        Fault::Syntax(text).text() == text,
        Fault::Syntax(text).place() is None,
        Fault::UnknownField(place, Scope::Config, text).text() == "unknown field `"@ + text
            + "`, expected "@ + "`global` or `tools`"@,
        Fault::UnknownField(place, Scope::Tool, text).text() == "unknown field `"@ + text
            + "`, expected "@ + "one of `network`, `inherit_env`, `mount`, `env`"@,
        Fault::UnknownField(place, scope, text).place() == Some(place),
        Fault::WrongType(place, text).text() == text,
        Fault::WrongType(place, text).place() == Some(place),
        Fault::Entry(place, EntryError::EmptyKey).text()
            == "Environment variable key cannot be empty"@,
        Fault::Entry(place, EntryError::NulByte).text()
            == "Environment variable entry contains a NUL byte"@,
        Fault::Entry(place, reason).place() == Some(place),
        Fault::DuplicateEntry(place, text).text() == "Duplicate environment variable entries: "@
            + text,
        Fault::DuplicateEntry(place, text).place() == Some(place),
{
}

/// A value of a wrong type is reported at its place, with what was found there and
/// what was expected.
pub proof fn wrong_types_are_described(document: Document, expected: Seq<char>)
    ensures
        wrong_type(document, expected) matches Fault::WrongType(place, message) && place
            == document.place() && message == mismatch(document, expected),
        document matches Document::Flag(_, true) ==> mismatch(document, expected)
            == "invalid type: "@ + "boolean `true`"@ + ", expected "@ + expected,
        document matches Document::Flag(_, false) ==> mismatch(document, expected)
            == "invalid type: "@ + "boolean `false`"@ + ", expected "@ + expected,
        document matches Document::Text(_, text) ==> mismatch(document, expected)
            == "invalid type: "@ + described_string(text) + ", expected "@ + expected,
        document is Date || document is Table ==> mismatch(document, expected) == "invalid type: "@
            + "map"@ + ", expected "@ + expected,
        document is List ==> mismatch(document, expected) == "invalid type: "@ + "sequence"@
            + ", expected "@ + expected,
        document matches Document::Number(_, text) ==> mismatch(document, expected)
            == unexpected_number(refused_number(text), expected),
{
}

/// The message about a number has what was expected in place of the unit that it
/// was read as. One without a unit at its end stays.
pub proof fn numbers_are_described(start: Seq<char>, message: Seq<char>, expected: Seq<char>)
    ensures
        unexpected_number(start + seq!['u', 'n', 'i', 't'], expected) == start + expected,
        message.len() < 4 || message.skip(message.len() - 4) != seq!['u', 'n', 'i', 't']
            ==> unexpected_number(message, expected) == message,
{
    reveal_strlit("unit");
    let unit = seq!['u', 'n', 'i', 't'];
    assert("unit"@ =~= unit);
    let whole = start + unit;
    assert(whole.skip(whole.len() - 4) =~= unit);
    assert(whole.take(whole.len() - 4) =~= start);
}

/// A switch is read exactly from a boolean, and has its value.
pub proof fn switches_are_booleans(document: Document)
    ensures
        document matches Document::Flag(_, flag) ==> decoded_flag(document) == Ok::<bool, Fault>(
            flag,
        ),
        !(document is Flag) ==> decoded_flag(document) == Err::<bool, Fault>(
            Fault::WrongType(document.place(), mismatch(document, "a boolean"@)),
        ),
{
}

/// Paths are read exactly from an array of strings: there are as many paths as
/// items, and each is the text of its item.
pub proof fn paths_are_the_texts_of_the_items(place: Span, items: Seq<Document>)
    ensures
        decoded_paths(Document::List(place, items)) is Ok <==> forall|i: int|
            0 <= i < items.len() ==> (#[trigger] items[i]) is Text,
        decoded_paths(Document::List(place, items)) matches Ok(paths) ==> {
            &&& paths.len() == items.len()
            &&& forall|i: int|
                0 <= i < items.len() ==> (#[trigger] items[i] matches Document::Text(_, text)
                    && paths[i] == text)
        },
    decreases items.len(),
{
    if items.len() > 0 {
        let rest = items.drop_last();
        paths_are_the_texts_of_the_items(place, rest);
        assert(items[items.len() - 1] == items.last());
        if decoded_paths(Document::List(place, rest)) is Err {
            let i = choose|i: int| 0 <= i < rest.len() && !((#[trigger] rest[i]) is Text);
            assert(items[i] == rest[i]);
        } else {
            assert forall|i: int| 0 <= i < rest.len() implies (#[trigger] items[i]) is Text by {
                assert(rest[i] is Text);
            }
            if let Ok(paths) = decoded_paths(Document::List(place, items)) {
                assert forall|i: int| 0 <= i < items.len() implies (#[trigger] items[i] matches
                    Document::Text(_, text) && paths[i] == text) by {
                    if i < rest.len() {
                        assert(rest[i] == items[i]);
                    }
                }
            }
        }
    }
}

/// The first item that is no string refuses an array of paths, and anything but an
/// array is refused.
pub proof fn first_item_that_is_no_path_is_reported(
    place: Span,
    items: Seq<Document>,
    k: int,
    document: Document,
)
    requires
        0 <= k < items.len(),
        forall|i: int| 0 <= i < k ==> (#[trigger] items[i]) is Text,
        !(items[k] is Text),
    ensures
        decoded_paths(Document::List(place, items)) == Err::<Seq<Seq<char>>, Fault>(
            Fault::WrongType(items[k].place(), mismatch(items[k], "path string"@)),
        ),
        !(document is List) ==> decoded_paths(document) == Err::<Seq<Seq<char>>, Fault>(
            Fault::WrongType(document.place(), mismatch(document, "a sequence"@)),
        ),
{
    let none = Seq::<Seq<char>>::empty();
    paths_are_the_texts_of_the_items(place, items.take(k));
    assert forall|i: int| 0 <= i < k implies (#[trigger] items.take(k)[i]) is Text by {
        assert(items[i] is Text);
    }
    lemma_folded_step(none, items, path_step(), k);
    lemma_folded_fault(none, items, path_step(), k + 1);
}

/// The first item that is no entry refuses an environment: with its own fault where
/// it is a string, and for its type where it is not.
pub proof fn first_item_that_is_no_entry_is_reported(place: Span, items: Seq<Document>, k: int)
    requires
        0 <= k < items.len(),
        parsed_entries(place, items.take(k)) is Ok,
    ensures
        items[k] matches Document::Text(_, text) ==> (crate::environment::parsed_entry(
            text,
        ) matches Err(error) ==> parsed_entries(place, items) == Err::<Seq<Entry>, Fault>(
            Fault::Entry(place, error),
        )),
        !(items[k] is Text) ==> parsed_entries(place, items) == Err::<Seq<Entry>, Fault>(
            Fault::WrongType(items[k].place(), mismatch(items[k], "a string"@)),
        ),
{
    let none = Seq::<Entry>::empty();
    lemma_folded_step(none, items, entry_step(place), k);
    if folded(none, items.take(k + 1), entry_step(place)) is Err {
        lemma_folded_fault(none, items, entry_step(place), k + 1);
    }
}

/// An environment is an array of entries of which no two have the same key. The
/// first entry whose key has occurred before is reported.
pub proof fn environments_repeat_no_key(document: Document, place: Span, items: Seq<Document>)
    ensures
        !(document is List) ==> decoded_env(document) == Err::<Seq<Entry>, Fault>(
            Fault::WrongType(document.place(), mismatch(document, "a sequence"@)),
        ),
        parsed_entries(place, items) is Err ==> decoded_env(Document::List(place, items))
            == parsed_entries(place, items),
        parsed_entries(place, items) matches Ok(env) ==> {
            &&& (forall|i: int, j: int|
                0 <= i < j < env.len() ==> (#[trigger] env[i]).key != (#[trigger] env[j]).key)
                ==> decoded_env(Document::List(place, items)) == Ok::<Seq<Entry>, Fault>(env)
            &&& forall|i: int, j: int|
                0 <= i < j < env.len() && (#[trigger] env[i]).key == (#[trigger] env[j]).key && (
                forall|a: int, b: int|
                    0 <= a < b < j ==> (#[trigger] env[a]).key != (#[trigger] env[b]).key)
                    ==> decoded_env(Document::List(place, items)) == Err::<Seq<Entry>, Fault>(
                    Fault::DuplicateEntry(place, env[j].key),
                )
        },
{
    if let Ok(env) = parsed_entries(place, items) {
        duplicate_entries_are_refused(place, items);
        lemma_repeat_position(env, 0);
        let at = repeat_position(env, 0);
        assert forall|i: int, j: int|
            0 <= i < j < env.len() && (#[trigger] env[i]).key == (#[trigger] env[j]).key && (
            forall|a: int, b: int|
                0 <= a < b < j ==> (#[trigger] env[a]).key != (
                #[trigger] env[b]).key) implies decoded_env(Document::List(place, items)) == Err::<
            Seq<Entry>,
            Fault,
        >(Fault::DuplicateEntry(place, env[j].key)) by {
            crate::config::lemma_position(env, env[j].key, 0);
            assert(crate::config::position(env, env[j].key, 0) <= i);
            assert(at <= j);
            if at < j {
                crate::config::lemma_position(env, env[at].key, 0);
                let a = crate::config::position(env, env[at].key, 0);
                assert(env[a].key == env[at].key);
            }
        }
    }
}

/// What one field more of a tool changes: the field that it names, if its value can
/// be read, and nothing else. A field of another name is refused, and what was
/// refused before stays so.
pub proof fn every_field_says_its_own(fields: Seq<NamedDocument>, field: NamedDocument)
    ensures
        decoded_fields(Seq::empty()) matches Ok(tool) && tool.network is None && tool.inherit_env
            is None && tool.mount.len() == 0 && tool.env.len() == 0,
        decoded_fields(fields) is Err ==> decoded_fields(fields.push(field)) == decoded_fields(
            fields,
        ),
        decoded_fields(fields) matches Ok(tool) ==> {
            let all = decoded_fields(fields.push(field));
            &&& field.name == "network"@ ==> match decoded_flag(field.document) {
                Ok(flag) => all == Ok::<Tool, Fault>(
                    Tool {
                        network: Some(flag),
                        inherit_env: tool.inherit_env,
                        mount: tool.mount,
                        env: tool.env,
                    },
                ),
                Err(fault) => all == Err::<Tool, Fault>(fault),
            }
            &&& field.name == "inherit_env"@ ==> match decoded_flag(field.document) {
                Ok(flag) => all == Ok::<Tool, Fault>(
                    Tool {
                        network: tool.network,
                        inherit_env: Some(flag),
                        mount: tool.mount,
                        env: tool.env,
                    },
                ),
                Err(fault) => all == Err::<Tool, Fault>(fault),
            }
            &&& field.name == "mount"@ ==> match decoded_paths(field.document) {
                Ok(mount) => all == Ok::<Tool, Fault>(
                    Tool {
                        network: tool.network,
                        inherit_env: tool.inherit_env,
                        mount,
                        env: tool.env,
                    },
                ),
                Err(fault) => all == Err::<Tool, Fault>(fault),
            }
            &&& field.name == "env"@ ==> match decoded_env(field.document) {
                Ok(env) => all == Ok::<Tool, Fault>(
                    Tool {
                        network: tool.network,
                        inherit_env: tool.inherit_env,
                        mount: tool.mount,
                        env,
                    },
                ),
                Err(fault) => all == Err::<Tool, Fault>(fault),
            }
            &&& field.name != "network"@ && field.name != "inherit_env"@ && field.name != "mount"@
                && field.name != "env"@ ==> all == Err::<Tool, Fault>(
                Fault::UnknownField(field.place, Scope::Tool, field.name),
            )
        },
{
    assert(fields.push(field).drop_last() =~= fields);
    lemma_distinct_names();
}

proof fn lemma_distinct_names()
    ensures
        "network"@ != "inherit_env"@,
        "network"@ != "mount"@,
        "network"@ != "env"@,
        "inherit_env"@ != "mount"@,
        "inherit_env"@ != "env"@,
        "mount"@ != "env"@,
        "global"@ != "tools"@,
{
    reveal_strlit("network");
    reveal_strlit("inherit_env");
    reveal_strlit("mount");
    reveal_strlit("env");
    reveal_strlit("global");
    reveal_strlit("tools");
    assert("network"@.len() == 7 && "inherit_env"@.len() == 11 && "mount"@.len() == 5 && "env"@.len()
        == 3);
    assert("global"@.len() == 6 && "tools"@.len() == 5);
}

/// What a table says of a tool: each field has what stands under its name, and is
/// unset where nothing does.
pub proof fn tables_give_the_fields_of_a_tool(
    place: Span,
    fields: Seq<NamedDocument>,
    tool: Tool,
    i: int,
)
    requires
        decoded_tool(Document::Table(place, fields)) == Ok::<Tool, Fault>(tool),
        0 <= i < fields.len(),
        forall|a: int, b: int|
            0 <= a < b < fields.len() ==> (#[trigger] fields[a]).name != (
            #[trigger] fields[b]).name,
    ensures
        fields[i].name == "network"@ || fields[i].name == "inherit_env"@ || fields[i].name
            == "mount"@ || fields[i].name == "env"@,
        fields[i].name == "network"@ ==> (tool.network matches Some(flag) && decoded_flag(
            fields[i].document,
        ) == Ok::<bool, Fault>(flag)),
        fields[i].name == "inherit_env"@ ==> (tool.inherit_env matches Some(flag) && decoded_flag(
            fields[i].document,
        ) == Ok::<bool, Fault>(flag)),
        fields[i].name == "mount"@ ==> decoded_paths(fields[i].document) == Ok::<
            Seq<Seq<char>>,
            Fault,
        >(tool.mount),
        fields[i].name == "env"@ ==> decoded_env(fields[i].document) == Ok::<Seq<Entry>, Fault>(
            tool.env,
        ),
    decreases fields.len(),
{
    lemma_distinct_names();
    let rest = fields.drop_last();
    let before = decoded_fields(rest);
    assert(before is Ok);
    if i < rest.len() {
        assert forall|a: int, b: int| 0 <= a < b < rest.len() implies (#[trigger] rest[a]).name != (
        #[trigger] rest[b]).name by {
            assert(rest[a] == fields[a] && rest[b] == fields[b]);
        }
        tables_give_the_fields_of_a_tool(place, rest, before->Ok_0, i);
        assert(rest[i] == fields[i]);
        assert(fields[i].name != fields[fields.len() - 1].name);
    }
}

/// What a table does not name stays unset.
pub proof fn tables_leave_the_rest_unset(place: Span, fields: Seq<NamedDocument>, tool: Tool)
    requires
        decoded_tool(Document::Table(place, fields)) == Ok::<Tool, Fault>(tool),
    ensures
        (forall|i: int| 0 <= i < fields.len() ==> (#[trigger] fields[i]).name != "network"@)
            ==> tool.network is None,
        (forall|i: int| 0 <= i < fields.len() ==> (#[trigger] fields[i]).name != "inherit_env"@)
            ==> tool.inherit_env is None,
        (forall|i: int| 0 <= i < fields.len() ==> (#[trigger] fields[i]).name != "mount"@)
            ==> tool.mount.len() == 0,
        (forall|i: int| 0 <= i < fields.len() ==> (#[trigger] fields[i]).name != "env"@)
            ==> tool.env.len() == 0,
    decreases fields.len(),
{
    if fields.len() > 0 {
        let rest = fields.drop_last();
        tables_leave_the_rest_unset(place, rest, decoded_fields(rest)->Ok_0);
        assert(fields[fields.len() - 1] == fields.last());
        assert forall|i: int| 0 <= i < rest.len() implies #[trigger] rest[i] == fields[i] by {}
        lemma_distinct_names();
    }
}

/// What an array says of a tool: its items are the switches for the network and the
/// environment, the mounts and the variables, in this order, as far as it goes.
pub proof fn arrays_give_the_fields_of_a_tool(place: Span, items: Seq<Document>, tool: Tool)
    requires
        decoded_tool(Document::List(place, items)) == Ok::<Tool, Fault>(tool),
    ensures
        items.len() > 0 ==> (tool.network matches Some(flag) && decoded_flag(items[0]) == Ok::<
            bool,
            Fault,
        >(flag)),
        items.len() <= 0 ==> tool.network is None,
        items.len() > 1 ==> (tool.inherit_env matches Some(flag) && decoded_flag(items[1]) == Ok::<
            bool,
            Fault,
        >(flag)),
        items.len() <= 1 ==> tool.inherit_env is None,
        items.len() > 2 ==> decoded_paths(items[2]) == Ok::<Seq<Seq<char>>, Fault>(tool.mount),
        items.len() <= 2 ==> tool.mount.len() == 0,
        items.len() > 3 ==> decoded_env(items[3]) == Ok::<Seq<Entry>, Fault>(tool.env),
        items.len() <= 3 ==> tool.env.len() == 0,
{
    lemma_distinct_names();
    let fields = named_items(items);
    let table = Document::Table(place, fields);
    assert(decoded_tool(table) == Ok::<Tool, Fault>(tool));
    assert(field_names()[0] == "network"@ && field_names()[1] == "inherit_env"@);
    assert(field_names()[2] == "mount"@ && field_names()[3] == "env"@);
    tables_leave_the_rest_unset(place, fields, tool);
    if items.len() > 0 {
        tables_give_the_fields_of_a_tool(place, fields, tool, 0);
    }
    if items.len() > 1 {
        tables_give_the_fields_of_a_tool(place, fields, tool, 1);
    }
    if items.len() > 2 {
        tables_give_the_fields_of_a_tool(place, fields, tool, 2);
    }
    if items.len() > 3 {
        tables_give_the_fields_of_a_tool(place, fields, tool, 3);
    }
}

/// An array is accepted as a tool wherever its first four items can be read, and is
/// otherwise refused for the first that cannot.
pub proof fn arrays_are_refused_for_their_items(place: Span, items: Seq<Document>)
    ensures
        ({
            let all = decoded_tool(Document::List(place, items));
            let n = items.len();
            let network = n == 0 || decoded_flag(items[0]) is Ok;
            let inherit_env = n <= 1 || decoded_flag(items[1]) is Ok;
            let mount = n <= 2 || decoded_paths(items[2]) is Ok;
            let env = n <= 3 || decoded_env(items[3]) is Ok;
            &&& network && inherit_env && mount && env ==> all is Ok
            &&& !network ==> all is Err && decoded_flag(items[0])->Err_0 == all->Err_0
            &&& network && !inherit_env ==> all is Err && decoded_flag(items[1])->Err_0
                == all->Err_0
            &&& network && inherit_env && !mount ==> all is Err && decoded_paths(items[2])->Err_0
                == all->Err_0
            &&& network && inherit_env && mount && !env ==> all is Err && decoded_env(
                items[3],
            )->Err_0 == all->Err_0
        }),
{
    lemma_distinct_names();
    let fields = named_items(items);
    let n = fields.len() as int;
    assert(fields.take(n) =~= fields);
    assert(fields.take(0) =~= Seq::<NamedDocument>::empty());
    assert(decoded_fields(fields.take(0)) is Ok);
    if n > 0 {
        lemma_folded_step(Tool::unset(), fields, tool_step(), 0);
        if decoded_fields(fields.take(1)) is Err {
            lemma_folded_fault(Tool::unset(), fields, tool_step(), 1);
        } else if n > 1 {
            lemma_folded_step(Tool::unset(), fields, tool_step(), 1);
            if decoded_fields(fields.take(2)) is Err {
                lemma_folded_fault(Tool::unset(), fields, tool_step(), 2);
            } else if n > 2 {
                lemma_folded_step(Tool::unset(), fields, tool_step(), 2);
                if decoded_fields(fields.take(3)) is Err {
                    lemma_folded_fault(Tool::unset(), fields, tool_step(), 3);
                } else if n > 3 {
                    lemma_folded_step(Tool::unset(), fields, tool_step(), 3);
                }
            }
        }
    }
}

/// A tool is a table or an array. A date is refused for its only field, and
/// anything else for its type.
pub proof fn tools_are_tables_or_arrays(document: Document, place: Span, fields: Seq<NamedDocument>)
    ensures
        decoded_tool(Document::Table(place, fields)) == decoded_fields(fields),
        document matches Document::Date(at, _) ==> decoded_tool(document) == Err::<Tool, Fault>(
            Fault::UnknownField(at, Scope::Tool, "$__toml_private_datetime"@),
        ),
        document is Flag || document is Text || document is Number ==> decoded_tool(document)
            == Err::<Tool, Fault>(
            Fault::WrongType(document.place(), mismatch(document, "struct ToolConfig"@)),
        ),
{
}

/// What one tool more changes: it stands at the end, under its name. A tool that is
/// refused refuses the others.
pub proof fn every_tool_is_added(
    place: Span,
    fields: Seq<NamedDocument>,
    field: NamedDocument,
    document: Document,
)
    ensures
        decoded_tools(Document::Table(place, Seq::empty())) matches Ok(tools) && tools.len() == 0,
        decoded_tools(Document::Table(place, fields)) is Err ==> decoded_tools(
            Document::Table(place, fields.push(field)),
        ) == decoded_tools(Document::Table(place, fields)),
        decoded_tools(Document::Table(place, fields)) matches Ok(tools) ==> match decoded_tool(
            field.document,
        ) {
            Ok(tool) => decoded_tools(Document::Table(place, fields.push(field))) == Ok::<
                Seq<(Seq<char>, Tool)>,
                Fault,
            >(tools.push((field.name, tool))),
            Err(fault) => decoded_tools(Document::Table(place, fields.push(field))) == Err::<
                Seq<(Seq<char>, Tool)>,
                Fault,
            >(fault),
        },
        document matches Document::Date(at, text) ==> decoded_tools(document) == Err::<
            Seq<(Seq<char>, Tool)>,
            Fault,
        >(
            Fault::WrongType(
                at,
                "invalid type: "@ + described_string(text) + ", expected "@ + "struct ToolConfig"@,
            ),
        ),
        !(document is Table) && !(document is Date) ==> decoded_tools(document) == Err::<
            Seq<(Seq<char>, Tool)>,
            Fault,
        >(Fault::WrongType(document.place(), mismatch(document, "a map"@))),
{
    assert(fields.push(field).drop_last() =~= fields);
}

/// Every tool of the table is there, under its name and as its table says, in
/// order.
pub proof fn tools_are_read_one_by_one(
    place: Span,
    fields: Seq<NamedDocument>,
    tools: Seq<(Seq<char>, Tool)>,
)
    requires
        decoded_tools(Document::Table(place, fields)) == Ok::<Seq<(Seq<char>, Tool)>, Fault>(tools),
    ensures
        tools.len() == fields.len(),
        forall|i: int|
            0 <= i < fields.len() ==> {
                &&& tools[i].0 == (#[trigger] fields[i]).name
                &&& decoded_tool(fields[i].document) == Ok::<Tool, Fault>(tools[i].1)
            },
    decreases fields.len(),
{
    if fields.len() > 0 {
        let rest = fields.drop_last();
        let before = decoded_tools(Document::Table(place, rest))->Ok_0;
        tools_are_read_one_by_one(place, rest, before);
        assert forall|i: int| 0 <= i < fields.len() implies {
            &&& tools[i].0 == (#[trigger] fields[i]).name
            &&& decoded_tool(fields[i].document) == Ok::<Tool, Fault>(tools[i].1)
        } by {
            if i < rest.len() {
                assert(rest[i] == fields[i]);
                assert(tools[i] == before[i]);
            }
        }
    }
}

/// What one field more of a configuration changes: the part that it names, and
/// nothing else. A field of another name is refused.
pub proof fn every_part_says_its_own(fields: Seq<NamedDocument>, field: NamedDocument)
    ensures
        decoded_parts(Seq::empty()) matches Ok(config) && config.tools.len() == 0
            && config.global.network is None && config.global.inherit_env is None
            && config.global.mount.len() == 0 && config.global.env.len() == 0,
        decoded_parts(fields) is Err ==> decoded_parts(fields.push(field)) == decoded_parts(fields),
        decoded_parts(fields) matches Ok(config) ==> {
            let all = decoded_parts(fields.push(field));
            &&& field.name == "global"@ ==> match decoded_tool(field.document) {
                Ok(global) => all == Ok::<Configuration, Fault>(
                    Configuration { global, tools: config.tools },
                ),
                Err(fault) => all == Err::<Configuration, Fault>(fault),
            }
            &&& field.name == "tools"@ ==> match decoded_tools(field.document) {
                Ok(tools) => all == Ok::<Configuration, Fault>(
                    Configuration { global: config.global, tools },
                ),
                Err(fault) => all == Err::<Configuration, Fault>(fault),
            }
            &&& field.name != "global"@ && field.name != "tools"@ ==> all == Err::<
                Configuration,
                Fault,
            >(Fault::UnknownField(field.place, Scope::Config, field.name))
        },
{
    assert(fields.push(field).drop_last() =~= fields);
    lemma_distinct_names();
}

/// What a document says: the global configuration is what stands under `global`,
/// with both switches on where they are not set, and the tools are what stands
/// under `tools`.
pub proof fn documents_give_their_configuration(
    place: Span,
    fields: Seq<NamedDocument>,
    config: Configuration,
    i: int,
)
    requires
        decoded_config(Document::Table(place, fields)) == Ok::<Configuration, Fault>(config),
        0 <= i < fields.len(),
        forall|a: int, b: int|
            0 <= a < b < fields.len() ==> (#[trigger] fields[a]).name != (
            #[trigger] fields[b]).name,
    ensures
        fields[i].name == "global"@ || fields[i].name == "tools"@,
        fields[i].name == "global"@ ==> (decoded_tool(fields[i].document) matches Ok(tool) && {
            &&& config.global.network == if tool.network is Some {
                tool.network
            } else {
                Some(true)
            }
            &&& config.global.inherit_env == if tool.inherit_env is Some {
                tool.inherit_env
            } else {
                Some(true)
            }
            &&& config.global.mount == tool.mount
            &&& config.global.env == tool.env
        }),
        fields[i].name == "tools"@ ==> decoded_tools(fields[i].document) == Ok::<
            Seq<(Seq<char>, Tool)>,
            Fault,
        >(config.tools),
    decreases fields.len(),
{
    lemma_distinct_names();
    let rest = fields.drop_last();
    let before = decoded_parts(rest);
    assert(before is Ok);
    if i < rest.len() {
        assert forall|a: int, b: int| 0 <= a < b < rest.len() implies (#[trigger] rest[a]).name != (
        #[trigger] rest[b]).name by {
            assert(rest[a] == fields[a] && rest[b] == fields[b]);
        }
        let earlier = decoded_config(Document::Table(place, rest))->Ok_0;
        documents_give_their_configuration(place, rest, earlier, i);
        assert(rest[i] == fields[i]);
        assert(fields[i].name != fields[fields.len() - 1].name);
    }
}

/// Where a document names no global configuration, both switches are on and nothing
/// is mounted or set. Where it names no tools, there are none. What is no table is
/// refused.
pub proof fn documents_leave_the_rest_standard(
    place: Span,
    fields: Seq<NamedDocument>,
    document: Document,
)
    ensures
        decoded_config(Document::Table(place, fields)) matches Ok(config) ==> {
            &&& (forall|i: int| 0 <= i < fields.len() ==> (#[trigger] fields[i]).name != "global"@)
                ==> config.global.network == Some(true) && config.global.inherit_env == Some(true)
                && config.global.mount.len() == 0 && config.global.env.len() == 0
            &&& (forall|i: int| 0 <= i < fields.len() ==> (#[trigger] fields[i]).name != "tools"@)
                ==> config.tools.len() == 0
        },
        decoded_config(Document::Table(place, fields)) is Err <==> decoded_parts(fields) is Err,
        decoded_parts(fields) matches Err(fault) ==> decoded_config(Document::Table(place, fields))
            == Err::<Configuration, Fault>(fault),
        !(document is Table) ==> decoded_config(document) == Err::<Configuration, Fault>(
            Fault::WrongType(document.place(), mismatch(document, "struct Config"@)),
        ),
    decreases fields.len(),
{
    if fields.len() > 0 {
        lemma_distinct_names();
        let rest = fields.drop_last();
        documents_leave_the_rest_standard(place, rest, document);
        assert(fields[fields.len() - 1] == fields.last());
        assert forall|i: int| 0 <= i < rest.len() implies #[trigger] rest[i] == fields[i] by {}
    }
}

/// A text means what its document says, and what is no document is refused with the
/// message of the parser.
pub proof fn texts_mean_what_their_document_says(text: Seq<char>)
    ensures
        crate::document::toml_document(text) matches Ok(document) ==> configuration(text)
            == decoded_config(document),
        crate::document::toml_document(text) matches Err(message) ==> configuration(text) == Err::<
            Configuration,
            Fault,
        >(Fault::Syntax(message)),
{
}

} // verus!
