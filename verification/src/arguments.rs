//! The arguments of the three macros: `filename = ".."` and
//! `visibility = ".."` for the two that read a file, one or two string
//! literals for the one that looks a variable up.
//!
//! Reading the arguments is the work of `syn` and `litrs`; what the macros
//! make of the arguments once read is decided here.
//!
//! Only plain texts are handed to `syn`: names, `=`, `,`, blank space and
//! string literals. `syn` stops the program at a literal that it does not
//! know, so a text that may hold any other literal is refused before the
//! call, with `Syntax`.

use crate::text::{chars_of, is_name_char, is_name_start, name_char, name_start, same_text};
use quote::ToTokens;
use syn::punctuated::Punctuated;
use vstd::prelude::*;

verus! {

/// What `litrs::StringLit::parse` makes of `source`: the text that `source`
/// denotes where it is a Rust string literal, plain or raw, and `None` where
/// it is not.
pub uninterp spec fn literal_text(source: Seq<char>) -> Option<Seq<char>>;

/// A character of the ASCII range.
pub open spec fn is_ascii(c: char) -> bool {
    c <= '\x7f'
}

/// The text that `source` denotes as a Rust string literal. A text that ends
/// in a character outside ASCII is not handed to the literal parser and
/// denotes nothing: a string literal ends in `"` or `#`.
pub open spec fn literal_of(source: Seq<char>) -> Option<Seq<char>> {
    if source.len() > 0 && !is_ascii(source.last()) {
        None
    } else {
        literal_text(source)
    }
}

/// Calls `litrs::StringLit::parse` on a copy of `source` and takes the value
/// of the literal with `into_value`. The result is what the literal parser
/// makes of `source`, which depends on `source` alone. The parser cuts
/// `source` one byte before its end when it meets a backslash, and stops
/// the program where that is inside a character: hence the demand that the
/// last character be ASCII.
#[verifier::external_body]
fn string_literal(source: &str) -> (r: Option<String>)
    requires
        source@.len() > 0 ==> is_ascii(source@.last()),
    ensures
        r.deep_view() == literal_text(source@),
{
    litrs::StringLit::parse(source.to_string()).ok().map(|literal| literal.into_value().to_string())
}

/// Where a scan of a text stands between two characters.
#[derive(Clone, Copy, Debug, PartialEq, Eq, Structural)]
pub enum Scan {
    /// Between tokens: at the start, or behind blank space, `=` or `,`.
    Gap,
    /// Inside a name; `only_r` where the name so far is the letter `r`.
    Word { only_r: bool },
    /// Directly behind the closing quote of a string literal.
    Closed,
    /// Inside a string literal that started with `"`.
    Cooked,
    /// Inside such a literal, directly behind a backslash.
    Escape,
    /// Inside a string literal that started with `r"`.
    Raw,
}

/// A character that separates tokens: blank space, a line break, `=` or `,`.
pub open spec fn is_gap(c: char) -> bool {
    c == ' ' || c == '\t' || c == '\n' || c == '\r' || c == '=' || c == ','
}

/// Where a scan stands behind `c`, or `None` where `c` may not stand in a
/// plain text at this point. Outside string literals a plain text holds
/// names, `=`, `,` and blank space only: no digit starts a token, no name
/// but `r` stands directly before a quote, and nothing but a separator or
/// another literal follows a closing quote. Inside a string literal any
/// character may stand; a backslash takes the character behind it with it.
pub open spec fn scan_step(state: Scan, c: char) -> Option<Scan> {
    match state {
        Scan::Gap => if is_gap(c) {
            Some(Scan::Gap)
        } else if is_name_start(c) {
            Some(Scan::Word { only_r: c == 'r' })
        } else if c == '"' {
            Some(Scan::Cooked)
        } else {
            None
        },
        Scan::Word { only_r } => if is_gap(c) {
            Some(Scan::Gap)
        } else if is_name_char(c) {
            Some(Scan::Word { only_r: false })
        } else if c == '"' && only_r {
            Some(Scan::Raw)
        } else {
            None
        },
        Scan::Closed => if is_gap(c) {
            Some(Scan::Gap)
        } else if c == '"' {
            Some(Scan::Cooked)
        } else {
            None
        },
        Scan::Cooked => if c == '"' {
            Some(Scan::Closed)
        } else if c == '\\' {
            Some(Scan::Escape)
        } else {
            Some(Scan::Cooked)
        },
        Scan::Escape => Some(Scan::Cooked),
        Scan::Raw => if c == '"' {
            Some(Scan::Closed)
        } else {
            Some(Scan::Raw)
        },
    }
}

/// Whether a text may end where the scan stands: outside string literals.
pub open spec fn scan_may_end(state: Scan) -> bool {
    state is Gap || state is Word || state is Closed
}

/// Whether a scan that stands at `state` gets through `text` and may end
/// behind it.
pub open spec fn scans(text: Seq<char>, state: Scan) -> bool
    decreases text.len(),
{
    if text.len() == 0 {
        scan_may_end(state)
    } else {
        match scan_step(state, text[0]) {
            Some(next) => scans(text.drop_first(), next),
            None => false,
        }
    }
}

/// A plain text: names, `=`, `,`, blank space, and string literals of the
/// forms `".."` and `r".."`, each closed. Such a text holds no literal of
/// another kind (no number, character, byte, byte string or C string), no
/// comment and no bracket.
pub open spec fn is_plain(text: Seq<char>) -> bool {
    scans(text, Scan::Gap)
}

/// Decides [`is_gap`].
pub fn gap(c: char) -> (r: bool)
    ensures
        r == is_gap(c),
{
    c == ' ' || c == '\t' || c == '\n' || c == '\r' || c == '=' || c == ','
}

/// Computes [`scan_step`].
pub fn step(state: Scan, c: char) -> (r: Option<Scan>)
    ensures
        r == scan_step(state, c),
{
    match state {
        Scan::Gap => if gap(c) {
            Some(Scan::Gap)
        } else if name_start(c) {
            Some(Scan::Word { only_r: c == 'r' })
        } else if c == '"' {
            Some(Scan::Cooked)
        } else {
            None
        },
        Scan::Word { only_r } => if gap(c) {
            Some(Scan::Gap)
        } else if name_char(c) {
            Some(Scan::Word { only_r: false })
        } else if c == '"' && only_r {
            Some(Scan::Raw)
        } else {
            None
        },
        Scan::Closed => if gap(c) {
            Some(Scan::Gap)
        } else if c == '"' {
            Some(Scan::Cooked)
        } else {
            None
        },
        Scan::Cooked => if c == '"' {
            Some(Scan::Closed)
        } else if c == '\\' {
            Some(Scan::Escape)
        } else {
            Some(Scan::Cooked)
        },
        Scan::Escape => Some(Scan::Cooked),
        Scan::Raw => if c == '"' {
            Some(Scan::Closed)
        } else {
            Some(Scan::Raw)
        },
    }
}

/// Decides [`is_plain`].
pub fn plain(text: &str) -> (r: bool)
    ensures
        r == is_plain(text@),
{
    let chars = chars_of(text);
    let mut state = Scan::Gap;
    let mut i: usize = 0;
    proof {
        assert(chars@.skip(0) =~= chars@);
    }
    while i < chars.len()
        invariant
            i <= chars@.len(),
            chars@ == text@,
            is_plain(text@) == scans(chars@.skip(i as int), state),
        decreases chars@.len() - i,
    {
        proof {
            assert(chars@.skip(i as int).drop_first() =~= chars@.skip(i + 1));
        }
        match step(state, chars[i]) {
            Some(next) => {
                state = next;
            },
            None => {
                return false;
            },
        }
        i += 1;
    }
    match state {
        Scan::Gap => true,
        Scan::Word { .. } => true,
        Scan::Closed => true,
        _ => false,
    }
}

/// Calls `syn::parse::Parser::parse_str` with
/// `Punctuated::<Expr, Comma>::parse_terminated` on `input`: `None` where
/// `input` is no list of expressions separated by commas. Of each expression
/// that is an assignment the result holds the two sides as `to_token_stream`
/// and `to_string` print them, and `None` in place of any other expression.
/// Nothing is claimed of the result: how tokens are read and printed depends
/// on whether the process is expanding a macro. The text must be plain:
/// `syn::Lit::new` stops the program at a literal token that it does not
/// know, such as `c"x"`, and a plain text holds no literal but strings of
/// the forms `".."` and `r".."`, which it knows.
#[verifier::external_body]
fn split_arguments(input: &str) -> (r: Option<Vec<Option<(String, String)>>>)
    requires
        is_plain(input@),
{
    let parser = Punctuated::<syn::Expr, syn::token::Comma>::parse_terminated;
    let list = syn::parse::Parser::parse_str(parser, input).ok()?;
    Some(
        list.into_iter().map(
            |e|
                match e {
                    syn::Expr::Assign(a) => Some(
                        (a.left.to_token_stream().to_string(), a.right.to_token_stream().to_string()),
                    ),
                    _ => None,
                },
        ).collect(),
    )
}

/// Calls `syn::parse_str::<syn::Visibility>` on `text` and prints the
/// visibility with `to_token_stream` and `to_string`: `None` where `text` is
/// no visibility. Nothing is claimed of the result, for the reason given at
/// [`split_arguments`]. Any text may be handed over: the parser of a
/// visibility asks for no literal.
#[verifier::external_body]
fn visibility_tokens(text: &str) -> (r: Option<String>) {
    syn::parse_str::<syn::Visibility>(text).ok().map(|v| v.to_token_stream().to_string())
}

/// Calls `syn::parse::Parser::parse_str` with
/// `Punctuated::<LitStr, Comma>::parse_terminated` on `input` and takes the
/// `value` of each literal: `None` where `input` is no list of string
/// literals separated by commas. Nothing is claimed of the result, and the
/// text must be plain, both for the reasons given at [`split_arguments`].
#[verifier::external_body]
fn split_literals(input: &str) -> (r: Option<Vec<String>>)
    requires
        is_plain(input@),
{
    let parser = Punctuated::<syn::LitStr, syn::token::Comma>::parse_terminated;
    let list = syn::parse::Parser::parse_str(parser, input).ok()?;
    Some(list.iter().map(|literal| literal.value()).collect())
}

/// A string literal among the arguments: the text it denotes, and, for the
/// one assigned to `visibility`, that text read as a visibility, where it is
/// one.
#[derive(Debug, PartialEq, Eq)]
pub struct Literal {
    pub text: String,
    pub visibility: Option<String>,
}

/// One argument of `dotenv_build!` or `dotenv_module!`, as far as the macros
/// read it.
#[derive(Debug, PartialEq, Eq)]
pub enum Argument {
    /// An assignment `target = value`; `literal` is set where the value is
    /// a string literal.
    Assign { target: String, literal: Option<Literal> },
    /// Any other expression.
    Other,
}

/// Why the arguments of a macro are refused.
#[derive(Clone, Copy, Debug, PartialEq, Eq, Structural)]
pub enum ArgumentError {
    /// The arguments are not of the form that the macro takes.
    Syntax,
    /// An argument is no assignment.
    NotAssignment,
    /// `filename` or `visibility` is assigned something other than a string
    /// literal.
    NotStringLiteral,
    /// `visibility` is assigned a string that holds no visibility.
    InvalidVisibility,
    /// The name of the variable is missing.
    MissingName,
    /// More than a name and a message are given.
    TooManyArguments,
}

/// The text that `source` denotes as a Rust string literal, where it is one.
pub fn literal_value(source: &str) -> (r: Option<String>)
    ensures
        r.deep_view() == literal_of(source@),
{
    let chars = chars_of(source);
    if chars.len() > 0 && chars[chars.len() - 1] > '\x7f' {
        None
    } else {
        string_literal(source)
    }
}

/// Whether `argument` is what the macros read of the expression `raw`,
/// given as the two sides of an assignment or as `None` for any other
/// expression: the target as it stands, and the text of the value where the
/// value is a string literal.
pub open spec fn reads(argument: Argument, raw: Option<(String, String)>) -> bool {
    match raw {
        None => argument == Argument::Other,
        Some((target, source)) => argument matches Argument::Assign { target: t, literal } && t
            == target && match literal {
            Some(l) => literal_of(source@) == Some(l.text@),
            None => literal_of(source@) is None,
        },
    }
}

/// Whether `argument` is what the macros read of some expression.
pub open spec fn is_read(argument: Argument) -> bool {
    exists|raw: Option<(String, String)>| reads(argument, raw)
}

/// The argument `target = source`, with `source` read as a string literal.
/// Where the target is `visibility`, the literal's text is read as a
/// visibility; no other literal is.
pub fn assignment_argument(target: String, source: String) -> (r: Argument)
    ensures
        reads(r, Some((target, source))),
        r matches Argument::Assign { literal: Some(l), .. } ==> (target@ != "visibility"@
            ==> l.visibility is None),
{
    let literal = match literal_value(source.as_str()) {
        Some(text) => {
            let visibility = if same_text(target.as_str(), "visibility") {
                visibility_tokens(text.as_str())
            } else {
                None
            };
            Some(Literal { text, visibility })
        },
        None => None,
    };
    Argument::Assign { target, literal }
}

/// The arguments that a list of expressions stands for, one for each
/// expression, in order.
pub fn resolve_arguments(raw: Vec<Option<(String, String)>>) -> (r: Vec<Argument>)
    ensures
        r@.len() == raw@.len(),
        forall|i: int| 0 <= i < raw@.len() ==> reads(#[trigger] r@[i], raw@[i]),
{
    let mut out: Vec<Argument> = Vec::new();
    let ghost list = raw@;
    for pair in it: raw
        invariant
            it.seq() == list,
            out@.len() == it.index(),
            forall|i: int| 0 <= i < it.index() ==> reads(#[trigger] out@[i], list[i]),
    {
        let argument = match pair {
            Some((target, source)) => assignment_argument(target, source),
            None => Argument::Other,
        };
        out.push(argument);
    }
    out
}

/// Reads the arguments of `dotenv_build!` or `dotenv_module!` from their
/// text. A macro called without arguments has none: the empty text is not
/// handed to the parser. A text that is not plain fails with `Syntax` before
/// the parser is asked. Any other text is a list of expressions separated by
/// commas, read as [`resolve_arguments`] states, or fails with `Syntax`;
/// `build_filename` and `module_config` state what the macros make of it.
pub fn read_arguments(input: &str) -> (r: Result<Vec<Argument>, ArgumentError>)
    ensures
        input@.len() == 0 ==> (r matches Ok(args) && args@.len() == 0),
        !is_plain(input@) ==> r == Err::<Vec<Argument>, ArgumentError>(ArgumentError::Syntax),
        match r {
            Ok(args) => forall|i: int| 0 <= i < args@.len() ==> is_read(#[trigger] args@[i]),
            Err(e) => e == ArgumentError::Syntax,
        },
{
    if input.is_empty() {
        return Ok(Vec::new());
    }
    if !plain(input) {
        return Err(ArgumentError::Syntax);
    }
    match split_arguments(input) {
        None => Err(ArgumentError::Syntax),
        Some(raw) => Ok(resolve_arguments(raw)),
    }
}

/// Reads the arguments of `dotenv!` from their text: the texts of its
/// string literals, or `Syntax` where the arguments are no list of string
/// literals. A text that is not plain fails with `Syntax` before the parser
/// is asked. What the macro makes of the literals is stated by
/// `lookup_request`.
pub fn read_literals(input: &str) -> (r: Result<Vec<String>, ArgumentError>)
    ensures
        !is_plain(input@) ==> r == Err::<Vec<String>, ArgumentError>(ArgumentError::Syntax),
        r matches Err(e) ==> e == ArgumentError::Syntax,
{
    if !plain(input) {
        return Err(ArgumentError::Syntax);
    }
    match split_literals(input) {
        None => Err(ArgumentError::Syntax),
        Some(list) => Ok(list),
    }
}

} // verus!
