//! What parsing one line yields: an entry or an error.

use crate::text::{chars_of, is_name, valid_name};
use vstd::prelude::*;

verus! {

/// Why a line could not be parsed.
#[derive(Clone, Copy, Debug, PartialEq, Eq, Structural)]
pub enum ParseErrorKind {
    /// A quoted value has no closing quote before the end of its line.
    UnterminatedQuote,
    /// A backslash in a double-quoted value is followed by a character that
    /// names no escape.
    InvalidEscape,
    /// The line is no assignment: it has no `=` and is no variable name, or
    /// text other than a comment follows a closing quote.
    MalformedLine,
    /// The text before `=` does not fit the identifier grammar.
    InvalidIdentifier,
}

/// A line that could not be parsed: its number, counted from 1, and the cause.
#[derive(Clone, Copy, Debug, PartialEq, Eq, Structural)]
pub struct ParseError {
    pub line: usize,
    pub kind: ParseErrorKind,
}

/// The mathematical content of a [`ParsedEntry`].
pub struct Entry {
    pub name: Seq<char>,
    pub value: Seq<char>,
}

/// A variable and its value, unquoted and unescaped. The name always fits
/// the identifier grammar [`is_name`].
#[derive(Debug, PartialEq, Eq)]
pub struct ParsedEntry {
    name: String,
    value: String,
}

impl View for ParsedEntry {
    type V = Entry;

    closed spec fn view(&self) -> Entry {
        Entry { name: self.name@, value: self.value@ }
    }
}

impl Clone for ParsedEntry {
    fn clone(&self) -> (r: Self)
        ensures
            r@ == self@,
    {
        proof {
            use_type_invariant(self);
        }
        ParsedEntry { name: self.name.clone(), value: self.value.clone() }
    }
}

impl ParsedEntry {
    #[verifier::type_invariant]
    pub closed spec fn well_formed(&self) -> bool {
        is_name(self.name@)
    }

    /// The entry of `name` and `value`, where `name` fits the identifier
    /// grammar; `None` where it does not.
    pub fn new(name: &str, value: &str) -> (r: Option<ParsedEntry>)
        ensures
            r is Some <==> is_name(name@),
            r matches Some(e) ==> e@ == (Entry { name: name@, value: value@ }),
    {
        let chars = chars_of(name);
        if valid_name(chars.as_slice()) {
            Some(ParsedEntry { name: name.to_owned(), value: value.to_owned() })
        } else {
            None
        }
    }

    /// The entry of a name that is known to fit the identifier grammar.
    pub(crate) fn from_parts(name: String, value: String) -> (r: ParsedEntry)
        requires
            is_name(name@),
        ensures
            r@ == (Entry { name: name@, value: value@ }),
    {
        ParsedEntry { name, value }
    }

    /// The variable's name, which fits the identifier grammar.
    pub fn name(&self) -> (r: &str)
        ensures
            r@ == self@.name,
            is_name(r@),
    {
        proof {
            use_type_invariant(self);
        }
        self.name.as_str()
    }

    /// The variable's value.
    pub fn value(&self) -> (r: &str)
        ensures
            r@ == self@.value,
    {
        self.value.as_str()
    }
}

} // verus!
