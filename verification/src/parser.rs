//! The parser of a whole file: one result for each line that is neither
//! blank nor a comment, in the order of the file, all at once or one by
//! one.

use crate::entry::{Entry, ParseError, ParseErrorKind, ParsedEntry};
use crate::line::{line_outcome, outcome_model, parse_chars};
use crate::text::{chars_of, find, lemma_position, position};
use vstd::prelude::*;
use vstd::slice::slice_subrange;

verus! {

/// The results that the line of number `number` adds to those of its file.
pub open spec fn numbered(outcome: Option<Result<Entry, ParseErrorKind>>, number: nat) -> Seq<
    Result<Entry, ParseError>,
> {
    match outcome {
        None => Seq::empty(),
        Some(Ok(e)) => seq![Ok(e)],
        Some(Err(kind)) => seq![Err(ParseError { line: number as usize, kind })],
    }
}

/// The results of the text `s`, whose first line has the number `number`.
/// Lines end at a line feed; the text after the last line feed is a line
/// too.
pub open spec fn parse_from(s: Seq<char>, number: nat) -> Seq<Result<Entry, ParseError>>
    decreases s.len(),
{
    let end = position(s, '\n');
    let head = numbered(line_outcome(s.take(end)), number);
    if 0 <= end < s.len() {
        head + parse_from(s.skip(end + 1), number + 1)
    } else {
        head
    }
}

/// The results of a file's contents, with lines counted from 1.
pub open spec fn parsed(contents: Seq<char>) -> Seq<Result<Entry, ParseError>> {
    parse_from(contents, 1)
}

/// The content of one result.
pub open spec fn result_model(r: Result<ParsedEntry, ParseError>) -> Result<Entry, ParseError> {
    match r {
        Ok(e) => Ok(e@),
        Err(e) => Err(e),
    }
}

/// The content of a sequence of results.
pub open spec fn results_model(v: Seq<Result<ParsedEntry, ParseError>>) -> Seq<
    Result<Entry, ParseError>,
> {
    Seq::new(v.len(), |i: int| result_model(v[i]))
}

/// A pass over the contents of a file that yields the results one by one,
/// each when it is asked for: what comes behind a result is not looked at
/// before the next is asked for. A pass runs once, from the first line to
/// the last.
#[derive(Debug)]
pub struct Parser {
    chars: Vec<char>,
    start: usize,
    done: usize,
    ended: bool,
}

impl Parser {
    #[verifier::type_invariant]
    closed spec fn within(&self) -> bool {
        self.done <= self.start <= self.chars@.len()
    }

    /// The results that the pass has yet to yield, in order.
    pub closed spec fn remaining(&self) -> Seq<Result<Entry, ParseError>> {
        if self.ended {
            Seq::empty()
        } else {
            parse_from(self.chars@.skip(self.start as int), (self.done + 1) as nat)
        }
    }

    /// A pass over `contents`, with all its results yet to come.
    pub fn new(contents: &str) -> (r: Parser)
        ensures
            r.remaining() == parsed(contents@),
    {
        let chars = chars_of(contents);
        proof {
            assert(chars@.skip(0) =~= chars@);
        }
        Parser { chars, start: 0, done: 0, ended: false }
    }

    /// The next result of the pass, or `None` where the pass is over. A pass
    /// that is over stays over.
    pub fn next_result(&mut self) -> (r: Option<Result<ParsedEntry, ParseError>>)
        ensures
            match r {
                Some(x) => old(self).remaining().len() > 0 && result_model(x) == old(
                    self,
                ).remaining()[0] && final(self).remaining() == old(self).remaining().drop_first(),
                None => old(self).remaining().len() == 0 && final(self).remaining().len() == 0,
            },
    {
        loop
            invariant
                self.remaining() == old(self).remaining(),
            decreases self.chars@.len() - self.start, if self.ended { 0int } else { 1int },
        {
            proof {
                use_type_invariant(&*self);
            }
            if self.ended {
                return None;
            }
            let size = self.chars.len();
            let rest = slice_subrange(self.chars.as_slice(), self.start, size);
            let ghost text = self.chars@.skip(self.start as int);
            let ghost number = (self.done + 1) as nat;
            let end = find(rest, '\n');
            proof {
                lemma_position(text, '\n');
            }
            let outcome = parse_chars(slice_subrange(rest, 0, end));
            let result = match outcome {
                None => None,
                Some(Ok(e)) => Some(Ok(e)),
                Some(Err(kind)) => Some(Err(ParseError { line: self.done + 1, kind })),
            };
            if end >= rest.len() {
                self.ended = true;
            } else {
                proof {
                    assert(text.skip(end + 1) =~= self.chars@.skip(self.start + end + 1));
                }
                self.start = self.start + end + 1;
                self.done = self.done + 1;
            }
            if result.is_some() {
                return result;
            }
        }
    }
}

/// Parses the contents of a file: one result for each line that is neither
/// blank nor a comment, in the order of the file. A line that cannot be
/// parsed yields an error with its number and does not touch the others.
pub fn parse(contents: &str) -> (r: Vec<Result<ParsedEntry, ParseError>>)
    ensures
        results_model(r@) == parsed(contents@),
{
    let mut pass = Parser::new(contents);
    let mut out: Vec<Result<ParsedEntry, ParseError>> = Vec::new();
    loop
        invariant_except_break
            results_model(out@) + pass.remaining() == parsed(contents@),
        ensures
            results_model(out@) == parsed(contents@),
        decreases pass.remaining().len(),
    {
        let ghost before = out@;
        let ghost coming = pass.remaining();
        match pass.next_result() {
            Some(x) => {
                out.push(x);
                proof {
                    assert(results_model(before) + coming =~= results_model(out@)
                        + coming.drop_first());
                }
            },
            None => {
                break;
            },
        }
    }
    out
}

/// Parses one line, given without its line break: `None` for a blank line or
/// a comment, else the entry or the cause of the failure.
pub fn parse_line(line: &str) -> (r: Option<Result<ParsedEntry, ParseErrorKind>>)
    ensures
        outcome_model(r) == line_outcome(line@),
{
    let chars = chars_of(line);
    parse_chars(chars.as_slice())
}

} // verus!
