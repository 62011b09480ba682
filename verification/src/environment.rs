//! Environment entries of the configuration: `KEY` and `KEY=VALUE`.
use crate::text::{concat_text, find_char, has_char, slice_text};
use vstd::prelude::*;

verus! {

/// Where the value of a variable comes from.
#[derive(Debug)]
pub enum EnvironmentVariableValue {
    /// Inherit from the host environment. If the variable is not set there, it
    /// is unset for the tool.
    Inherit,
    /// Set it to a literal value, which may be the empty string.
    Literal(String),
}

/// An environment variable to set for a tool.
#[derive(Debug)]
pub struct EnvironmentVariable {
    pub key: String,
    pub value: EnvironmentVariableValue,
}

/// The mathematical content of an environment variable: its key, and its
/// literal value where it has one.
pub struct Entry {
    pub key: Seq<char>,
    pub value: Option<Seq<char>>,
}

impl View for EnvironmentVariable {
    type V = Entry;

    open spec fn view(&self) -> Entry {
        Entry {
            key: self.key@,
            value: match self.value {
                EnvironmentVariableValue::Inherit => None,
                EnvironmentVariableValue::Literal(value) => Some(value@),
            },
        }
    }
}

/// Why an entry is refused.
#[derive(Clone, Copy, Debug, PartialEq, Eq, Structural)]
pub enum EntryError {
    /// Nothing stands before the `=`, or the entry is empty.
    EmptyKey,
    /// A NUL character stands in the key or the value.
    NulByte,
}

impl EntryError {
    /// The message shown for the error.
    pub open spec fn text(self) -> Seq<char> {
        match self {
            EntryError::EmptyKey => "Environment variable key cannot be empty"@,
            EntryError::NulByte => "Environment variable entry contains a NUL byte"@,
        }
    }

    /// The message shown for the error.
    pub fn message(self) -> (r: String)
        ensures
            r@ == self.text(),
    {
        match self {
            EntryError::EmptyKey => "Environment variable key cannot be empty".to_owned(),
            EntryError::NulByte => "Environment variable entry contains a NUL byte".to_owned(),
        }
    }
}

/// Whether `key` can be the key of an entry.
pub open spec fn valid_key(key: Seq<char>) -> bool {
    &&& key.len() > 0
    &&& !key.contains('=')
    &&& !key.contains('\0')
}

impl Entry {
    /// Whether the entry has a valid key and a value without NUL.
    pub open spec fn valid(self) -> bool {
        &&& valid_key(self.key)
        &&& self.value matches Some(value) ==> !value.contains('\0')
    }

    /// The entry as it is written in a configuration.
    pub open spec fn written(self) -> Seq<char> {
        match self.value {
            Some(value) => self.key.push('=') + value,
            None => self.key,
        }
    }
}

/// Where the key of a written entry ends: at the first `=`, or at the end.
pub open spec fn key_length(text: Seq<char>) -> int {
    crate::text::first_index(text, '=', 0)
}

/// What a written entry means. The first `=` separates key and value, so that a
/// value may hold further ones.
pub open spec fn parsed_entry(text: Seq<char>) -> Result<Entry, EntryError> {
    let length = key_length(text);
    if length == 0 {
        Err(EntryError::EmptyKey)
    } else if text.contains('\0') {
        Err(EntryError::NulByte)
    } else {
        Ok(
            Entry {
                key: text.take(length),
                value: if length < text.len() {
                    Some(text.skip(length + 1))
                } else {
                    None
                },
            },
        )
    }
}

/// Whether `text` has the form of an entry: a key, alone or followed by `=` and a
/// value. Neither holds a NUL.
pub open spec fn is_entry_text(text: Seq<char>) -> bool {
    ||| valid_key(text)
    ||| exists|key: Seq<char>, value: Seq<char>| #[trigger]
        valid_key(key) && !value.contains('\0') && text == #[trigger] (key.push('=') + value)
}

impl EnvironmentVariable {
    /// Reads an entry as it is written in a configuration.
    pub fn deserialize(text: &str) -> (r: Result<EnvironmentVariable, EntryError>)
        ensures
            match r {
                Ok(variable) => parsed_entry(text@) == Ok::<Entry, EntryError>(variable@),
                Err(error) => parsed_entry(text@) == Err::<Entry, EntryError>(error),
            },
    {
        let length: usize = find_char(text, '=');
        let total: usize = text.unicode_len();
        if length == 0 {
            return Err(EntryError::EmptyKey);
        }
        if has_char(text, '\0') {
            return Err(EntryError::NulByte);
        }
        let key: String = slice_text(text, 0, length);
        assert(key@ == text@.take(length as int));
        if length < total {
            let value: String = slice_text(text, length + 1, total);
            assert(value@ == text@.skip(length + 1));
            Ok(EnvironmentVariable { key, value: EnvironmentVariableValue::Literal(value) })
        } else {
            Ok(EnvironmentVariable { key, value: EnvironmentVariableValue::Inherit })
        }
    }

    /// The entry as it is written in a configuration.
    pub fn serialize(&self) -> (r: String)
        ensures
            r@ == self@.written(),
    {
        match &self.value {
            EnvironmentVariableValue::Inherit => self.key.clone(),
            EnvironmentVariableValue::Literal(value) => {
                proof {
                    reveal_strlit("=");
                    assert(self.key@ + "="@ == self.key@.push('='));
                }
                concat_text(concat_text(self.key.as_str(), "=").as_str(), value.as_str())
            },
        }
    }
}

/// An entry is accepted exactly if it has the form of one.
pub proof fn accepted_entries(text: Seq<char>)
    ensures
        parsed_entry(text) is Ok <==> is_entry_text(text),
{
    read_entries_write_back(text);
    if is_entry_text(text) {
        if valid_key(text) {
            let entry = Entry { key: text, value: None };
            written_entries_read_back(entry);
        } else {
            let (key, value) = choose|key: Seq<char>, value: Seq<char>| #[trigger]
                valid_key(key) && !value.contains('\0') && text == #[trigger] (key.push('=')
                    + value);
            written_entries_read_back(Entry { key, value: Some(value) });
        }
    }
}

proof fn lemma_written_literal(key: Seq<char>, value: Seq<char>)
    requires
        valid_key(key),
        !value.contains('\0'),
    ensures
        key_length(key.push('=') + value) == key.len(),
        !(key.push('=') + value).contains('\0'),
{
    let text = key.push('=') + value;
    assert forall|k: int| 0 <= k < key.len() implies text[k] != '=' by {
        assert(text[k] == key[k]);
        assert(key.contains(key[k]));
    }
    crate::text::lemma_first_index_unique(text, '=', 0, key.len() as int);
    if text.contains('\0') {
        let k = text.index_of('\0');
        if k < key.len() {
            assert(key[k] == text[k]);
            assert(key.contains(key[k]));
        } else if k > key.len() {
            assert(value[k - key.len() - 1] == text[k]);
            assert(value.contains(value[k - key.len() - 1]));
        }
    }
}

/// Reading back a written valid entry gives the entry.
pub proof fn written_entries_read_back(entry: Entry)
    requires
        entry.valid(),
    ensures
        parsed_entry(entry.written()) == Ok::<Entry, EntryError>(entry),
{
    let text = entry.written();
    match entry.value {
        Some(value) => {
            lemma_written_literal(entry.key, value);
            assert(text.take(entry.key.len() as int) =~= entry.key);
            assert(text.skip(entry.key.len() as int + 1) =~= value);
        },
        None => {
            assert forall|k: int| 0 <= k < text.len() implies text[k] != '=' by {
                assert(text.contains(text[k]));
            }
            crate::text::lemma_first_index_unique(text, '=', 0, text.len() as int);
            assert(text.take(text.len() as int) =~= text);
        },
    }
}

/// An accepted entry is valid, and is written as it was read.
pub proof fn read_entries_write_back(text: Seq<char>)
    ensures
        parsed_entry(text) matches Ok(entry) ==> entry.valid() && entry.written() == text,
{
    if let Ok(entry) = parsed_entry(text) {
        crate::text::lemma_first_index(text, '=', 0);
        assert(valid_key(entry.key)) by {
            if entry.key.contains('=') {
                let k = entry.key.index_of('=');
                assert(text[k] == entry.key[k]);
            }
            if entry.key.contains('\0') {
                let k = entry.key.index_of('\0');
                assert(text[k] == entry.key[k]);
            }
        }
        match entry.value {
            Some(value) => {
                if value.contains('\0') {
                    let k = value.index_of('\0');
                    assert(text[k + key_length(text) + 1] == value[k]);
                }
                assert(entry.written() =~= text);
            },
            None => {
                assert(entry.written() =~= text);
            },
        }
    }
}

/// A variable shows its key, and its value exactly where that is literal.
pub proof fn variables_show_what_they_hold(variable: EnvironmentVariable)
    ensures
        variable@.key == variable.key@,
        variable.value is Inherit ==> variable@.value is None,
        variable.value matches EnvironmentVariableValue::Literal(value) ==> variable@.value == Some(
            value@,
        ),
{
}

/// A key alone is inherited. Behind a key, the first `=` starts the value, whatever
/// the value holds.
pub proof fn entries_are_split_at_the_first_equals_sign(key: Seq<char>, value: Seq<char>)
    requires
        key.len() > 0,
        !key.contains('='),
        !key.contains('\0'),
        !value.contains('\0'),
    ensures
        parsed_entry(key) == Ok::<Entry, EntryError>(Entry { key, value: None }),
        parsed_entry(key + seq!['='] + value) == Ok::<Entry, EntryError>(
            Entry { key, value: Some(value) },
        ),
{
    written_entries_read_back(Entry { key, value: None });
    written_entries_read_back(Entry { key, value: Some(value) });
    assert(key + seq!['='] + value =~= key.push('=') + value);
}

/// An entry is refused exactly if it is empty, starts with `=` or holds a NUL, and
/// the first two reasons come first.
pub proof fn entries_without_a_key_or_with_nul_are_refused(text: Seq<char>)
    ensures
        text.len() == 0 || text[0] == '=' ==> parsed_entry(text) == Err::<Entry, EntryError>(
            EntryError::EmptyKey,
        ),
        text.len() > 0 && text[0] != '=' && text.contains('\0') ==> parsed_entry(text) == Err::<
            Entry,
            EntryError,
        >(EntryError::NulByte),
        text.len() > 0 && text[0] != '=' && !text.contains('\0') ==> parsed_entry(text) is Ok,
{
    if text.len() > 0 && text[0] != '=' {
        crate::text::lemma_first_index(text, '=', 1);
    }
}

/// An inherited variable is written as its key, a literal one with `=` and its
/// value behind it.
pub proof fn entries_are_written_with_their_value(key: Seq<char>, value: Seq<char>)
    ensures
        (Entry { key, value: None }).written() == key,
        (Entry { key, value: Some(value) }).written() == key + seq!['='] + value,
        (Entry { key, value: None }).valid() <==> key.len() > 0 && !key.contains('=')
            && !key.contains('\0'),
        (Entry { key, value: Some(value) }).valid() <==> key.len() > 0 && !key.contains('=')
            && !key.contains('\0') && !value.contains('\0'),
{
    assert(key + seq!['='] + value =~= key.push('=') + value);
}

} // verus!
