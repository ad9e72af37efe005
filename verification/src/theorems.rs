//! What the grammar promises of whole classes of lines and files: how
//! assignments, quotes, escapes, comments and the keyword are read, that
//! lines are parsed one by one, and that names fit the identifier grammar.

use crate::entry::{Entry, ParseError, ParseErrorKind};
use crate::environment::{entries_of, folded};
use crate::line::{
    after, assignment, comment_start, double_quoted, export_word, lemma_comment_start,
    line_outcome, starts_comment, value_of, without_export,
};
use crate::parser::{numbered, parse_from, parsed};
use crate::text::{
    is_blank, is_name, is_space, lemma_name_trimmed, lemma_position, lemma_position_at,
    lemma_trimmed_end, lemma_trimmed_end_after, lemma_trimmed_end_blank,
    lemma_trimmed_start_blank, position, trimmed_end,
};
use vstd::prelude::*;

verus! {

/// What the line `name=text` yields, given what `text` denotes.
pub open spec fn assigned(name: Seq<char>, value: Result<Seq<char>, ParseErrorKind>) -> Option<
    Result<Entry, ParseErrorKind>,
> {
    match value {
        Ok(v) => Some(Ok(Entry { name, value: v })),
        Err(k) => Some(Err(k)),
    }
}

/// A value that stands unquoted as it is: it neither starts nor ends with
/// blank space, starts with no quote, and holds no comment.
pub open spec fn is_plain_value(v: Seq<char>) -> bool {
    v.len() > 0 ==> {
        &&& !is_space(v[0])
        &&& !is_space(v.last())
        &&& v[0] != '\'' && v[0] != '"'
        &&& forall|i: int| 0 <= i < v.len() ==> !starts_comment(v, i)
    }
}

/// A text that holds neither a double quote nor a backslash.
pub open spec fn is_unescaped(s: Seq<char>) -> bool {
    forall|i: int| 0 <= i < s.len() ==> #[trigger] s[i] != '"' && s[i] != '\\'
}

/// An assignment binds the name before `=` to what the text after it
/// denotes; blank space between the name and `=` does not count.
pub proof fn lemma_assignment(name: Seq<char>, gap: Seq<char>, text: Seq<char>)
    requires
        is_name(name),
        is_blank(gap),
    ensures
        Some(assignment(name + gap + seq!['='] + text)) == assigned(name, value_of(text)),
{
    let s = name + gap + seq!['='] + text;
    let at = (name.len() + gap.len()) as int;
    lemma_name_trimmed(name);
    assert(position(s, '=') == at) by {
        lemma_position_at(s, '=', at);
    }
    assert(s.take(at) =~= name + gap);
    assert(s.skip(at + 1) =~= text);
    lemma_trimmed_end_blank(name, gap);
}

/// A line that holds a variable name and `=` assigns to that name what the
/// rest of the line denotes. Blank space before the name, between the name
/// and `=`, and at the end of the line does not count. The one name that
/// may not be followed by blank space is `export`, which is then the
/// keyword.
pub proof fn lemma_assignment_line(
    indent: Seq<char>,
    name: Seq<char>,
    gap: Seq<char>,
    text: Seq<char>,
)
    requires
        is_blank(indent),
        is_name(name),
        is_blank(gap),
        name != export_word() || gap.len() == 0,
    ensures
        line_outcome(indent + (name + gap + seq!['='] + text)) == assigned(
            name,
            value_of(trimmed_end(text)),
        ),
{
    let head = name + gap + seq!['='];
    let rest = head + text;
    lemma_name_trimmed(name);
    lemma_trimmed_start_blank(indent, rest);
    lemma_trimmed_end_after(head, text);
    let s = head + trimmed_end(text);
    assert(without_export(s) == s) by {
        if name.len() == 6 {
            assert(name =~= s.take(6));
        }
    }
    lemma_assignment(name, gap, trimmed_end(text));
}

/// The keyword `export` before an assignment is dropped: where blank space
/// follows it, the line yields what the assignment yields.
pub proof fn lemma_export_line(
    indent: Seq<char>,
    space: Seq<char>,
    name: Seq<char>,
    gap: Seq<char>,
    text: Seq<char>,
)
    requires
        is_blank(indent),
        is_blank(space),
        space.len() > 0,
        is_name(name),
        is_blank(gap),
    ensures
        line_outcome(indent + (export_word() + space + (name + gap + seq!['='] + text)))
            == assigned(name, value_of(trimmed_end(text))),
{
    let head = name + gap + seq!['='];
    let front = export_word() + space + head;
    let rest = front + text;
    assert(export_word() + space + (head + text) =~= rest);
    lemma_name_trimmed(name);
    lemma_trimmed_start_blank(indent, rest);
    lemma_trimmed_end_after(front, text);
    let kept = trimmed_end(text);
    let s = front + kept;
    assert(s.take(6) =~= export_word());
    assert(s.skip(6) =~= space + (head + kept));
    lemma_trimmed_start_blank(space, head + kept);
    lemma_assignment(name, gap, kept);
}

/// The line `name=text` assigns to `name` what `text` denotes, the blank
/// space at the end of the line set aside.
pub proof fn lemma_plain_assignment_line(name: Seq<char>, text: Seq<char>)
    requires
        is_name(name),
    ensures
        line_outcome(name + seq!['='] + text) == assigned(name, value_of(trimmed_end(text))),
{
    let none = Seq::<char>::empty();
    lemma_assignment_line(none, name, none, text);
}

/// A variable name alone on its line is bound to the empty value, and so is
/// one that nothing follows but `=`.
pub proof fn lemma_missing_value(name: Seq<char>)
    requires
        is_name(name),
    ensures
        line_outcome(name) == Some(
            Ok::<Entry, ParseErrorKind>(Entry { name, value: Seq::empty() }),
        ),
        line_outcome(name + seq!['=']) == Some(
            Ok::<Entry, ParseErrorKind>(Entry { name, value: Seq::empty() }),
        ),
{
    let none = Seq::<char>::empty();
    lemma_name_trimmed(name);
    assert(without_export(name) == name);
    assert(position(name, '=') == name.len()) by {
        lemma_position(name, '=');
    }
    assert(name.take(name.len() as int) =~= name);
    lemma_plain_assignment_line(name, none);
    assert(none.take(0) =~= none);
}

/// A line of blank space yields nothing.
pub proof fn lemma_blank_line(line: Seq<char>)
    requires
        is_blank(line),
    ensures
        line_outcome(line) is None,
{
    lemma_trimmed_start_blank(line, Seq::<char>::empty());
}

/// A line whose first character after blank space is `#` yields nothing,
/// whatever follows.
pub proof fn lemma_comment_line(indent: Seq<char>, rest: Seq<char>)
    requires
        is_blank(indent),
    ensures
        line_outcome(indent + (seq!['#'] + rest)) is None,
{
    let s = seq!['#'] + rest;
    lemma_trimmed_start_blank(indent, s);
    lemma_trimmed_end_after(seq!['#'], rest);
}

/// No comment starts in a text in which none starts at any index.
pub proof fn lemma_no_comment(v: Seq<char>, from: int)
    requires
        0 <= from <= v.len(),
        forall|i: int| 0 <= i < v.len() ==> !starts_comment(v, i),
    ensures
        comment_start(v, from) == v.len(),
{
    lemma_comment_start(v, from);
}

/// An unquoted value is read as it stands, whatever blank space surrounds
/// it: for a variable name `name`, a plain value `value` and blank `before`
/// and `behind`, the line `name=` `before` `value` `behind` yields the entry
/// of `name` and `value`.
pub proof fn lemma_unquoted_line(
    name: Seq<char>,
    before: Seq<char>,
    value: Seq<char>,
    behind: Seq<char>,
)
    requires
        is_name(name),
        is_plain_value(value),
        is_blank(before),
        is_blank(behind),
    ensures
        line_outcome(name + seq!['='] + (before + value + behind)) == Some(
            Ok::<Entry, ParseErrorKind>(Entry { name, value }),
        ),
{
    let text = before + value + behind;
    lemma_plain_assignment_line(name, text);
    lemma_trimmed_end_blank(before + value, behind);
    if value.len() == 0 {
        lemma_trimmed_end_blank(Seq::<char>::empty(), before);
        assert(Seq::<char>::empty().take(0) =~= Seq::<char>::empty());
        assert(value =~= Seq::<char>::empty());
    } else {
        lemma_trimmed_end_after(before + value, Seq::<char>::empty());
        lemma_trimmed_start_blank(before, value);
        lemma_no_comment(value, 0);
        assert(value.take(value.len() as int) =~= value);
    }
}

/// A single-quoted value is read verbatim: for a variable name `name` and a
/// text `literal` without a single quote, the line `name='literal'` yields
/// the entry of `name` and `literal`, whatever else `literal` holds.
pub proof fn lemma_single_quoted_line(name: Seq<char>, literal: Seq<char>)
    requires
        is_name(name),
        !literal.contains('\''),
    ensures
        line_outcome(name + seq!['='] + (seq!['\''] + literal + seq!['\''])) == Some(
            Ok::<Entry, ParseErrorKind>(Entry { name, value: literal }),
        ),
{
    let text = seq!['\''] + literal + seq!['\''];
    lemma_plain_assignment_line(name, text);
    let body = text.skip(1);
    assert(position(body, '\'') == literal.len()) by {
        lemma_position_at(body, '\'', literal.len() as int);
    }
    assert(body.take(literal.len() as int) =~= literal);
}

/// Inside double quotes, text without quote and backslash stands for itself.
pub proof fn lemma_double_quoted_plain(plain: Seq<char>, rest: Seq<char>)
    requires
        is_unescaped(plain),
    ensures
        double_quoted(plain + rest) == after(plain, double_quoted(rest)),
    decreases plain.len(),
{
    if plain.len() > 0 {
        let tail = plain.drop_first();
        assert((plain + rest).skip(1) =~= tail + rest);
        lemma_double_quoted_plain(tail, rest);
        let next = double_quoted(rest);
        if next is Ok {
            assert(seq![plain[0]] + (tail + next->Ok_0) =~= plain + next->Ok_0);
        }
    }
}

/// A double-quoted value has its escapes resolved: for a variable name
/// `name` and texts `a` and `b` without quote and backslash, the line that
/// holds `name="a\nb"`, with a backslash and the letter `n` between `a` and
/// `b`, yields the entry of `name` and of `a`, a line feed, and `b`.
pub proof fn lemma_double_quoted_line(name: Seq<char>, a: Seq<char>, b: Seq<char>)
    requires
        is_name(name),
        is_unescaped(a),
        is_unescaped(b),
    ensures
        line_outcome(name + seq!['='] + (seq!['"'] + a + seq!['\\', 'n'] + b + seq!['"']))
            == Some(Ok::<Entry, ParseErrorKind>(Entry { name, value: a + seq!['\n'] + b })),
{
    let text = seq!['"'] + a + seq!['\\', 'n'] + b + seq!['"'];
    lemma_plain_assignment_line(name, text);
    let body = text.skip(1);
    let closing = seq!['"'];
    let second = seq!['\\', 'n'] + (b + closing);
    assert(body =~= a + second);
    lemma_double_quoted_plain(a, second);
    assert(second.skip(2) =~= b + closing);
    lemma_double_quoted_plain(b, closing);
    assert(a + (seq!['\n'] + b) =~= a + seq!['\n'] + b);
}

/// A double quote that is never closed is an error of its line: for a
/// variable name `name` and a text `body` without quote and backslash, the
/// line `name="body` fails with `UnterminatedQuote`.
pub proof fn lemma_unterminated_double_quote(name: Seq<char>, body: Seq<char>)
    requires
        is_name(name),
        is_unescaped(body),
    ensures
        line_outcome(name + seq!['='] + (seq!['"'] + body)) == Some(
            Err::<Entry, ParseErrorKind>(ParseErrorKind::UnterminatedQuote),
        ),
{
    let quote = seq!['"'];
    let text = quote + body;
    lemma_plain_assignment_line(name, text);
    lemma_trimmed_end_after(quote, body);
    let kept = trimmed_end(body);
    lemma_trimmed_end(body);
    assert((quote + kept).skip(1) =~= kept + Seq::<char>::empty());
    lemma_double_quoted_plain(kept, Seq::<char>::empty());
}

/// A single quote that is never closed is an error of its line: for a
/// variable name `name` and a text `body` without a single quote, the line
/// `name='body` fails with `UnterminatedQuote`.
pub proof fn lemma_unterminated_single_quote(name: Seq<char>, body: Seq<char>)
    requires
        is_name(name),
        !body.contains('\''),
    ensures
        line_outcome(name + seq!['='] + (seq!['\''] + body)) == Some(
            Err::<Entry, ParseErrorKind>(ParseErrorKind::UnterminatedQuote),
        ),
{
    let quote = seq!['\''];
    let text = quote + body;
    lemma_plain_assignment_line(name, text);
    lemma_trimmed_end_after(quote, body);
    let kept = trimmed_end(body);
    lemma_trimmed_end(body);
    assert((quote + kept).skip(1) =~= kept);
    lemma_position(kept, '\'');
}

/// The number of line feeds in `s`.
pub open spec fn line_breaks(s: Seq<char>) -> nat
    decreases s.len(),
{
    let end = position(s, '\n');
    if 0 <= end < s.len() {
        1 + line_breaks(s.skip(end + 1))
    } else {
        0
    }
}

/// A text without a line feed is one line.
pub proof fn lemma_single_line(line: Seq<char>, number: nat)
    requires
        !line.contains('\n'),
    ensures
        parse_from(line, number) == numbered(line_outcome(line), number),
        line_breaks(line) == 0,
{
    lemma_position(line, '\n');
    assert(line.take(position(line, '\n')) =~= line);
}

/// Lines are parsed one by one: the results of two texts joined by a line
/// feed are those of the first, followed by those of the second with its
/// lines counted on from the first. No line changes what another yields.
pub proof fn lemma_lines_independent(a: Seq<char>, b: Seq<char>, number: nat)
    ensures
        parse_from(a + seq!['\n'] + b, number) == parse_from(a, number) + parse_from(
            b,
            number + line_breaks(a) + 1,
        ),
    decreases a.len(),
{
    let s = a + seq!['\n'] + b;
    let end = position(a, '\n');
    lemma_position(a, '\n');
    assert(position(s, '\n') == end) by {
        lemma_position_at(s, '\n', end);
    }
    assert(s.take(end) =~= a.take(end));
    let head = numbered(line_outcome(a.take(end)), number);
    if end < a.len() {
        let rest = a.skip(end + 1);
        assert(s.skip(end + 1) =~= rest + seq!['\n'] + b);
        lemma_lines_independent(rest, b, number + 1);
        let last = parse_from(b, number + 1 + line_breaks(rest) + 1);
        assert(head + (parse_from(rest, number + 1) + last) =~= (head + parse_from(
            rest,
            number + 1,
        )) + last);
    } else {
        assert(s.skip(end + 1) =~= b);
    }
}

/// A file of two lines yields what its first line yields as line 1,
/// followed by what its second line yields as line 2: both stay, in the
/// order of the file, also where they assign to the same name.
pub proof fn lemma_two_lines(first: Seq<char>, second: Seq<char>)
    requires
        !first.contains('\n'),
        !second.contains('\n'),
    ensures
        parsed(first + seq!['\n'] + second) == numbered(line_outcome(first), 1) + numbered(
            line_outcome(second),
            2,
        ),
{
    lemma_lines_independent(first, second, 1);
    lemma_single_line(first, 1);
    lemma_single_line(second, 2);
}

/// Where a file assigns to one name twice, both entries stay in the order
/// of the file, and folding them binds the name to the later value.
pub proof fn lemma_duplicate_name(name: Seq<char>, first: Seq<char>, second: Seq<char>)
    requires
        is_name(name),
        is_plain_value(first),
        is_plain_value(second),
        !first.contains('\n'),
        !second.contains('\n'),
    ensures
        parsed(name + seq!['='] + first + seq!['\n'] + (name + seq!['='] + second)) == seq![
            Ok::<Entry, ParseError>(Entry { name, value: first }),
            Ok::<Entry, ParseError>(Entry { name, value: second }),
        ],
        folded(
            entries_of(
                parsed(name + seq!['='] + first + seq!['\n'] + (name + seq!['='] + second)),
            ),
        ) == Map::<Seq<char>, Seq<char>>::empty().insert(name, second),
{
    let none = Seq::<char>::empty();
    let one = name + seq!['='] + first;
    let two = name + seq!['='] + second;
    lemma_unquoted_line(name, none, first, none);
    lemma_unquoted_line(name, none, second, none);
    lemma_assignment_has_no_line_feed(name, first);
    lemma_assignment_has_no_line_feed(name, second);
    lemma_two_lines(one, two);
    let results = parsed(one + seq!['\n'] + two);
    let a = Entry { name, value: first };
    assert(entries_of(results.drop_last().drop_last()) =~= Seq::<Entry>::empty());
    assert(entries_of(results.drop_last()) =~= seq![a]);
    let entries = entries_of(results);
    assert(entries.drop_last() =~= seq![a]);
    assert(entries.drop_last().drop_last() =~= Seq::<Entry>::empty());
    assert(folded(Seq::<Entry>::empty()) =~= Map::<Seq<char>, Seq<char>>::empty());
    assert(folded(seq![a]) =~= Map::<Seq<char>, Seq<char>>::empty().insert(name, first));
}

/// The line `name=text` holds no line feed where `text` holds none.
pub proof fn lemma_assignment_has_no_line_feed(name: Seq<char>, text: Seq<char>)
    requires
        is_name(name),
        !text.contains('\n'),
    ensures
        !(name + seq!['='] + text).contains('\n'),
{
    lemma_name_trimmed(name);
}

/// A line with a double quote that is never closed fails with
/// `UnterminatedQuote` and its own number, and the lines before and behind
/// it yield what they yield without it.
pub proof fn lemma_unterminated_quote_in_file(
    before: Seq<char>,
    name: Seq<char>,
    body: Seq<char>,
    behind: Seq<char>,
)
    requires
        is_name(name),
        is_unescaped(body),
        !body.contains('\n'),
    ensures
        parsed(before + seq!['\n'] + (name + seq!['='] + (seq!['"'] + body) + seq!['\n'] + behind))
            == parse_from(before, 1) + seq![
            Err::<Entry, ParseError>(
                ParseError {
                    line: (line_breaks(before) + 2) as usize,
                    kind: ParseErrorKind::UnterminatedQuote,
                },
            ),
        ] + parse_from(behind, line_breaks(before) + 3),
{
    let line = name + seq!['='] + (seq!['"'] + body);
    let number = line_breaks(before) + 2;
    lemma_lines_independent(before, line + seq!['\n'] + behind, 1);
    lemma_lines_independent(line, behind, number);
    lemma_assignment_has_no_line_feed(name, seq!['"'] + body);
    lemma_single_line(line, number);
    lemma_unterminated_double_quote(name, body);
    assert(parse_from(before, 1) + (parse_from(line, number) + parse_from(behind, number + 1))
        =~= parse_from(before, 1) + parse_from(line, number) + parse_from(behind, number + 1));
}

/// Every entry that a line yields has a name that fits the identifier
/// grammar.
pub proof fn lemma_entry_name(line: Seq<char>)
    ensures
        line_outcome(line) matches Some(Ok(e)) ==> is_name(e.name),
{
}

/// Every entry among the results of a text has a name that fits the
/// identifier grammar, and every error carries the number of one of the
/// text's lines.
pub proof fn lemma_results(s: Seq<char>, number: nat)
    requires
        number + line_breaks(s) <= usize::MAX,
    ensures
        forall|i: int|
            0 <= i < parse_from(s, number).len() ==> match #[trigger] parse_from(s, number)[i] {
                Ok(e) => is_name(e.name),
                Err(e) => number <= e.line <= number + line_breaks(s),
            },
    decreases s.len(),
{
    let end = position(s, '\n');
    lemma_entry_name(s.take(end));
    if 0 <= end < s.len() {
        lemma_results(s.skip(end + 1), number + 1);
    }
}

/// The lines of `s`: the texts between its line feeds, the one after the
/// last line feed included.
pub open spec fn lines(s: Seq<char>) -> Seq<Seq<char>>
    decreases s.len(),
{
    let end = position(s, '\n');
    if 0 <= end < s.len() {
        seq![s.take(end)] + lines(s.skip(end + 1))
    } else {
        seq![s]
    }
}

/// What the lines of a list yield together, the first line having the
/// number `number`.
pub open spec fn results_of(list: Seq<Seq<char>>, number: nat) -> Seq<Result<Entry, ParseError>>
    decreases list.len(),
{
    if list.len() == 0 {
        Seq::empty()
    } else {
        numbered(line_outcome(list[0]), number) + results_of(list.drop_first(), number + 1)
    }
}

/// The results of a text are those of its lines, each under its number, in
/// the order of the lines; and a text has one line more than line feeds.
pub proof fn lemma_parsed_by_lines(s: Seq<char>, number: nat)
    ensures
        parse_from(s, number) == results_of(lines(s), number),
        lines(s).len() == line_breaks(s) + 1,
    decreases s.len(),
{
    let end = position(s, '\n');
    let none = Seq::<Result<Entry, ParseError>>::empty();
    if 0 <= end < s.len() {
        let rest = s.skip(end + 1);
        lemma_parsed_by_lines(rest, number + 1);
        assert(lines(s).drop_first() =~= lines(rest));
    } else {
        lemma_position(s, '\n');
        assert(s.take(end) =~= s);
        assert(results_of(lines(s).drop_first(), number + 1) == none);
    }
}

} // verus!
