//! The grammar of one line, `[export ]NAME[=VALUE]`, and its parser.
//!
//! A line is first freed of the blank space at its ends. What is left is
//! skipped where it is empty or starts with `#`. Otherwise a leading `export`
//! followed by blank space is dropped, and the rest is split at its first
//! `=`: the name before it, the value after it, each without the blank
//! space around it.
//!
//! The name must fit the identifier grammar. Where it does not, the line
//! fails with `InvalidIdentifier` if it holds a `=`, and with `MalformedLine`
//! if it holds none. A name without `=` is bound to the empty value.
//!
//! The value has one of three forms.
//! - Unquoted: the text as it stands, up to a comment and without the blank
//!   space before it. A comment starts at a `#` that stands at the start of
//!   the value or after blank space, so that `a#b` is a value of three
//!   characters.
//! - Single-quoted: the text between `'` and the next `'`, as it stands.
//! - Double-quoted: the text between `"` and the next `"` that no backslash
//!   escapes, in which `\n`, `\r`, `\t`, `\"` and `\\` stand for a line
//!   feed, a carriage return, a tab, a quote and a backslash. A backslash
//!   before any other character fails with `InvalidEscape`.
//!
//! A quote that is not closed on its line fails with `UnterminatedQuote`.
//! Behind a closing quote only blank space and a comment may follow;
//! anything else fails with `MalformedLine`.

use crate::entry::{Entry, ParseErrorKind, ParsedEntry};
use crate::text::{
    find, is_name, is_space, lemma_position, position, space, text_of, trim, trim_end,
    trim_start, trimmed, trimmed_end, trimmed_start, valid_name,
};
use vstd::prelude::*;
use vstd::slice::slice_subrange;

verus! {

/// The keyword that may stand before a name.
pub open spec fn export_word() -> Seq<char> {
    seq!['e', 'x', 'p', 'o', 'r', 't']
}

/// `s` without a leading `export` keyword. The keyword is the word `export`
/// followed by blank space; `export=1` assigns to a variable of that name.
pub open spec fn without_export(s: Seq<char>) -> Seq<char> {
    if s.len() > 6 && s.take(6) == export_word() && is_space(s[6]) {
        trimmed_start(s.skip(6))
    } else {
        s
    }
}

/// What may follow a closing quote: blank space, and then nothing or a
/// comment.
pub open spec fn is_trailer(s: Seq<char>) -> bool {
    let t = trimmed_start(s);
    t.len() == 0 || t[0] == '#'
}

/// The character that a backslash followed by `c` stands for inside double
/// quotes, where there is one.
pub open spec fn escaped(c: char) -> Option<char> {
    if c == 'n' {
        Some('\n')
    } else if c == 'r' {
        Some('\r')
    } else if c == 't' {
        Some('\t')
    } else if c == '"' {
        Some('"')
    } else if c == '\\' {
        Some('\\')
    } else {
        None
    }
}

/// `rest` with `head` before it, where `rest` is a value.
pub open spec fn after(head: Seq<char>, rest: Result<Seq<char>, ParseErrorKind>) -> Result<
    Seq<char>,
    ParseErrorKind,
> {
    match rest {
        Ok(v) => Ok(head + v),
        Err(k) => Err(k),
    }
}

/// The value of a double-quoted text, given what follows its opening quote.
/// It ends at the first quote that no backslash escapes. A backslash and the
/// character after it stand for one character; a pair that names no escape
/// is an error. The first fault from the left decides the error.
pub open spec fn double_quoted(body: Seq<char>) -> Result<Seq<char>, ParseErrorKind>
    decreases body.len(),
{
    if body.len() == 0 {
        Err(ParseErrorKind::UnterminatedQuote)
    } else if body[0] == '"' {
        if is_trailer(body.skip(1)) {
            Ok(Seq::empty())
        } else {
            Err(ParseErrorKind::MalformedLine)
        }
    } else if body[0] == '\\' {
        if body.len() == 1 {
            Err(ParseErrorKind::UnterminatedQuote)
        } else {
            match escaped(body[1]) {
                Some(c) => after(seq![c], double_quoted(body.skip(2))),
                None => Err(ParseErrorKind::InvalidEscape),
            }
        }
    } else {
        after(seq![body[0]], double_quoted(body.skip(1)))
    }
}

/// The value of a single-quoted text, given what follows its opening quote:
/// everything up to the next single quote, as it stands.
pub open spec fn single_quoted(body: Seq<char>) -> Result<Seq<char>, ParseErrorKind> {
    let end = position(body, '\'');
    if end == body.len() {
        Err(ParseErrorKind::UnterminatedQuote)
    } else if is_trailer(body.skip(end + 1)) {
        Ok(body.take(end))
    } else {
        Err(ParseErrorKind::MalformedLine)
    }
}

/// Whether a comment starts at index `i` of an unquoted value: a `#` at the
/// start or after blank space.
pub open spec fn starts_comment(s: Seq<char>, i: int) -> bool {
    s[i] == '#' && (i == 0 || is_space(s[i - 1]))
}

/// The least index from `from` on at which a comment starts, or the length of
/// `s` where none does.
pub open spec fn comment_start(s: Seq<char>, from: int) -> int
    decreases s.len() - from,
{
    if from < 0 || from >= s.len() {
        s.len() as int
    } else if starts_comment(s, from) {
        from
    } else {
        comment_start(s, from + 1)
    }
}

/// `comment_start` is the least index from `from` on at which a comment
/// starts.
pub proof fn lemma_comment_start(s: Seq<char>, from: int)
    requires
        0 <= from <= s.len(),
    ensures
        from <= comment_start(s, from) <= s.len(),
        comment_start(s, from) < s.len() ==> starts_comment(s, comment_start(s, from)),
        forall|i: int| from <= i < comment_start(s, from) ==> !starts_comment(s, i),
    decreases s.len() - from,
{
    if from < s.len() && !starts_comment(s, from) {
        lemma_comment_start(s, from + 1);
    }
}

/// The value of an unquoted text: the text before its comment, without the
/// blank space at its end.
pub open spec fn unquoted(text: Seq<char>) -> Seq<char> {
    trimmed_end(text.take(comment_start(text, 0)))
}

/// The value that the text after `=` denotes.
pub open spec fn value_of(text: Seq<char>) -> Result<Seq<char>, ParseErrorKind> {
    let v = trimmed_start(text);
    if v.len() > 0 && v[0] == '\'' {
        single_quoted(v.skip(1))
    } else if v.len() > 0 && v[0] == '"' {
        double_quoted(v.skip(1))
    } else {
        Ok(unquoted(v))
    }
}

/// What an assignment text `NAME[=VALUE]` yields.
pub open spec fn assignment(s: Seq<char>) -> Result<Entry, ParseErrorKind> {
    let eq = position(s, '=');
    let key = trimmed(s.take(eq));
    if eq == s.len() {
        if is_name(key) {
            Ok(Entry { name: key, value: Seq::empty() })
        } else {
            Err(ParseErrorKind::MalformedLine)
        }
    } else if !is_name(key) {
        Err(ParseErrorKind::InvalidIdentifier)
    } else {
        match value_of(s.skip(eq + 1)) {
            Ok(v) => Ok(Entry { name: key, value: v }),
            Err(k) => Err(k),
        }
    }
}

/// What one line yields: nothing for a blank line or a comment, else an
/// entry or the cause of its failure.
pub open spec fn line_outcome(line: Seq<char>) -> Option<Result<Entry, ParseErrorKind>> {
    let s = trimmed(line);
    if s.len() == 0 || s[0] == '#' {
        None
    } else {
        Some(assignment(without_export(s)))
    }
}

/// The content of a parsed value.
pub open spec fn value_model(r: Result<String, ParseErrorKind>) -> Result<
    Seq<char>,
    ParseErrorKind,
> {
    match r {
        Ok(s) => Ok(s@),
        Err(k) => Err(k),
    }
}

/// The content of a parsed assignment.
pub open spec fn entry_model(r: Result<ParsedEntry, ParseErrorKind>) -> Result<
    Entry,
    ParseErrorKind,
> {
    match r {
        Ok(e) => Ok(e@),
        Err(k) => Err(k),
    }
}

/// The content of what a line was parsed to.
pub open spec fn outcome_model(r: Option<Result<ParsedEntry, ParseErrorKind>>) -> Option<
    Result<Entry, ParseErrorKind>,
> {
    match r {
        Some(r) => Some(entry_model(r)),
        None => None,
    }
}

/// Decides [`is_trailer`].
pub fn trailer(s: &[char]) -> (r: bool)
    ensures
        r == is_trailer(s@),
{
    let t = trim_start(s);
    t.len() == 0 || t[0] == '#'
}

/// Computes [`escaped`].
pub fn unescape(c: char) -> (r: Option<char>)
    ensures
        r == escaped(c),
{
    if c == 'n' {
        Some('\n')
    } else if c == 'r' {
        Some('\r')
    } else if c == 't' {
        Some('\t')
    } else if c == '"' {
        Some('"')
    } else if c == '\\' {
        Some('\\')
    } else {
        None
    }
}

/// Parses what follows the opening quote of a double-quoted value.
pub fn parse_double_quoted(body: &[char]) -> (r: Result<String, ParseErrorKind>)
    ensures
        value_model(r) == double_quoted(body@),
{
    let mut out = String::new();
    let mut i: usize = 0;
    proof {
        assert(body@.skip(0) =~= body@);
    }
    loop
        invariant
            i <= body.len(),
            double_quoted(body@) == after(out@, double_quoted(body@.skip(i as int))),
        decreases body.len() - i,
    {
        let ghost rest = body@.skip(i as int);
        if i >= body.len() {
            return Err(ParseErrorKind::UnterminatedQuote);
        }
        let c = body[i];
        if c == '"' {
            proof {
                assert(rest.skip(1) =~= body@.subrange(i + 1, body@.len() as int));
            }
            if trailer(slice_subrange(body, i + 1, body.len())) {
                return Ok(out);
            } else {
                return Err(ParseErrorKind::MalformedLine);
            }
        } else if c == '\\' {
            if i + 1 >= body.len() {
                return Err(ParseErrorKind::UnterminatedQuote);
            }
            match unescape(body[i + 1]) {
                None => {
                    return Err(ParseErrorKind::InvalidEscape);
                },
                Some(e) => {
                    proof {
                        let next = double_quoted(body@.skip(i + 2));
                        assert(rest.skip(2) =~= body@.skip(i + 2));
                        if next is Ok {
                            assert(out@ + (seq![e] + next->Ok_0) =~= out@.push(e) + next->Ok_0);
                        }
                    }
                    out.push(e);
                    i += 2;
                },
            }
        } else {
            proof {
                let next = double_quoted(body@.skip(i + 1));
                assert(rest.skip(1) =~= body@.skip(i + 1));
                if next is Ok {
                    assert(out@ + (seq![c] + next->Ok_0) =~= out@.push(c) + next->Ok_0);
                }
            }
            out.push(c);
            i += 1;
        }
    }
}

/// Parses what follows the opening quote of a single-quoted value.
pub fn parse_single_quoted(body: &[char]) -> (r: Result<String, ParseErrorKind>)
    ensures
        value_model(r) == single_quoted(body@),
{
    let end = find(body, '\'');
    proof {
        lemma_position(body@, '\'');
    }
    if end == body.len() {
        Err(ParseErrorKind::UnterminatedQuote)
    } else if trailer(slice_subrange(body, end + 1, body.len())) {
        Ok(text_of(slice_subrange(body, 0, end)))
    } else {
        Err(ParseErrorKind::MalformedLine)
    }
}

/// Computes [`comment_start`] from the start of `s`.
pub fn find_comment(s: &[char]) -> (r: usize)
    ensures
        r == comment_start(s@, 0),
        r <= s.len(),
{
    let mut i: usize = 0;
    while i < s.len() && !(s[i] == '#' && (i == 0 || space(s[i - 1])))
        invariant
            i <= s.len(),
            comment_start(s@, 0) == comment_start(s@, i as int),
        decreases s.len() - i,
    {
        i += 1;
    }
    i
}

/// Parses the text after `=`.
pub fn parse_value(text: &[char]) -> (r: Result<String, ParseErrorKind>)
    ensures
        value_model(r) == value_of(text@),
{
    let v = trim_start(text);
    if v.len() > 0 && v[0] == '\'' {
        parse_single_quoted(slice_subrange(v, 1, v.len()))
    } else if v.len() > 0 && v[0] == '"' {
        parse_double_quoted(slice_subrange(v, 1, v.len()))
    } else {
        let end = find_comment(v);
        Ok(text_of(trim_end(slice_subrange(v, 0, end))))
    }
}

/// Drops a leading `export` keyword, as [`without_export`] says.
pub fn strip_export<'a>(s: &'a [char]) -> (r: &'a [char])
    ensures
        r@ == without_export(s@),
{
    if s.len() > 6 && s[0] == 'e' && s[1] == 'x' && s[2] == 'p' && s[3] == 'o' && s[4] == 'r'
        && s[5] == 't' && space(s[6]) {
        proof {
            assert(s@.take(6) =~= export_word());
        }
        trim_start(slice_subrange(s, 6, s.len()))
    } else {
        s
    }
}

/// Parses an assignment text `NAME[=VALUE]`.
pub fn parse_assignment(s: &[char]) -> (r: Result<ParsedEntry, ParseErrorKind>)
    ensures
        entry_model(r) == assignment(s@),
{
    let eq = find(s, '=');
    proof {
        lemma_position(s@, '=');
    }
    let key = trim(slice_subrange(s, 0, eq));
    if eq == s.len() {
        if valid_name(key) {
            Ok(ParsedEntry::from_parts(text_of(key), String::new()))
        } else {
            Err(ParseErrorKind::MalformedLine)
        }
    } else if !valid_name(key) {
        Err(ParseErrorKind::InvalidIdentifier)
    } else {
        match parse_value(slice_subrange(s, eq + 1, s.len())) {
            Ok(v) => Ok(ParsedEntry::from_parts(text_of(key), v)),
            Err(k) => Err(k),
        }
    }
}

/// Parses one line, given as its characters without the line break.
pub fn parse_chars(line: &[char]) -> (r: Option<Result<ParsedEntry, ParseErrorKind>>)
    ensures
        outcome_model(r) == line_outcome(line@),
{
    let s = trim(line);
    if s.len() == 0 || s[0] == '#' {
        None
    } else {
        Some(parse_assignment(strip_export(s)))
    }
}

} // verus!
