//! What the three macros produce from the file that was found: the
//! variables to set at the start of the program, the constants of a module,
//! or the value of one variable.

use crate::config::{LookupRequest, ModuleConfig};
use crate::entry::{Entry, ParseError, ParseErrorKind, ParsedEntry};
use crate::environment::{entries_of, first_error, fold_pass, folded};
use crate::locator::{EnvFile, NotFoundError};
use crate::parser::{parse, parsed, result_model, results_model, Parser};
use vstd::prelude::*;
use vstd::string::StringExecFns;

verus! {

/// The decimal digit of a number below ten.
pub open spec fn digit(d: nat) -> char {
    ((48 + d) as u8) as char
}

/// The decimal numeral of `n`.
pub open spec fn decimal(n: nat) -> Seq<char>
    decreases n,
{
    if n < 10 {
        seq![digit(n)]
    } else {
        decimal(n / 10).push(digit(n % 10))
    }
}

/// The cause of a failure, in words.
pub open spec fn cause(kind: ParseErrorKind) -> Seq<char> {
    match kind {
        ParseErrorKind::UnterminatedQuote => "unterminated quote"@,
        ParseErrorKind::InvalidEscape => "invalid escape sequence"@,
        ParseErrorKind::MalformedLine => "malformed line"@,
        ParseErrorKind::InvalidIdentifier => "invalid identifier"@,
    }
}

/// The message for a line that could not be parsed: its number and the
/// cause.
pub open spec fn description(e: ParseError) -> Seq<char> {
    "line "@ + decimal(e.line as nat) + ": "@ + cause(e.kind)
}

/// The names of `directory` in order, each after a `/`.
pub open spec fn joined(directory: Seq<Seq<char>>) -> Seq<char>
    decreases directory.len(),
{
    if directory.len() == 0 {
        Seq::empty()
    } else {
        joined(directory.drop_last()) + seq!['/'] + directory.last()
    }
}

/// The path of the file `filename` in `directory`, written with `/`.
pub open spec fn path_text(directory: Seq<Seq<char>>, filename: Seq<char>) -> Seq<char> {
    joined(directory) + seq!['/'] + filename
}

/// The mathematical content of an [`Item`].
pub enum ItemModel {
    Variable { name: Seq<char>, value: Seq<char> },
    CompileError { message: Seq<char> },
}

/// What one result of the parser becomes in the output of a macro.
#[derive(Debug, PartialEq, Eq)]
pub enum Item {
    /// A variable of the file: set at the start of the program, or made a
    /// constant of the module.
    Variable { name: String, value: String },
    /// A line that could not be parsed: the build fails with this message.
    CompileError { message: String },
}

impl View for Item {
    type V = ItemModel;

    open spec fn view(&self) -> ItemModel {
        match self {
            Item::Variable { name, value } => ItemModel::Variable { name: name@, value: value@ },
            Item::CompileError { message } => ItemModel::CompileError { message: message@ },
        }
    }
}

/// The item of one result from the file at `path`: the variable of an
/// entry, or an error that names the file, the line and the cause.
pub open spec fn item_of(path: Seq<char>, r: Result<Entry, ParseError>) -> ItemModel {
    match r {
        Ok(e) => ItemModel::Variable { name: e.name, value: e.value },
        Err(e) => ItemModel::CompileError { message: path + ": "@ + description(e) },
    }
}

/// The items of the results from the file at `path`, one for each result,
/// in order.
pub open spec fn items_of(path: Seq<char>, results: Seq<Result<Entry, ParseError>>) -> Seq<
    ItemModel,
> {
    Seq::new(results.len(), |i: int| item_of(path, results[i]))
}

/// The contents of a sequence of items.
pub open spec fn item_models(items: Seq<Item>) -> Seq<ItemModel> {
    Seq::new(items.len(), |i: int| items[i]@)
}

/// Appends the decimal numeral of `n` to `out`.
pub fn push_decimal(out: &mut String, n: usize)
    ensures
        final(out)@ == old(out)@ + decimal(n as nat),
    decreases n,
{
    if n >= 10 {
        push_decimal(out, n / 10);
    }
    let d: u8 = (n % 10) as u8;
    let c: char = (48u8 + d) as char;
    out.push(c);
    proof {
        if n >= 10 {
            assert(old(out)@ + decimal((n / 10) as nat).push(c) =~= (old(out)@ + decimal(
                (n / 10) as nat,
            )).push(c));
        }
    }
}

/// The words for `kind`.
pub fn cause_text(kind: ParseErrorKind) -> (r: &'static str)
    ensures
        r@ == cause(kind),
{
    match kind {
        ParseErrorKind::UnterminatedQuote => "unterminated quote",
        ParseErrorKind::InvalidEscape => "invalid escape sequence",
        ParseErrorKind::MalformedLine => "malformed line",
        ParseErrorKind::InvalidIdentifier => "invalid identifier",
    }
}

/// The message for a line that could not be parsed.
pub fn describe(e: &ParseError) -> (r: String)
    ensures
        r@ == description(*e),
{
    let mut out = "line ".to_owned();
    push_decimal(&mut out, e.line);
    out.append(": ");
    out.append(cause_text(e.kind));
    out
}

/// The path of a file, written with `/`.
pub fn path_of(directory: &Vec<String>, filename: &str) -> (r: String)
    ensures
        r@ == path_text(directory.deep_view(), filename@),
{
    let mut out = String::new();
    let mut i: usize = 0;
    let ghost names = directory.deep_view();
    while i < directory.len()
        invariant
            i <= directory@.len(),
            names == directory.deep_view(),
            out@ == joined(names.take(i as int)),
        decreases directory@.len() - i,
    {
        proof {
            assert(names.take(i + 1).drop_last() =~= names.take(i as int));
        }
        out.push('/');
        out.append(directory[i].as_str());
        i += 1;
    }
    proof {
        assert(names.take(i as int) =~= names);
    }
    out.push('/');
    out.append(filename);
    out
}

/// The items of the results from the file at `path`.
pub fn items(path: &str, results: &Vec<Result<ParsedEntry, ParseError>>) -> (r: Vec<Item>)
    ensures
        item_models(r@) == items_of(path@, results_model(results@)),
{
    let mut out: Vec<Item> = Vec::new();
    let mut i: usize = 0;
    while i < results.len()
        invariant
            i <= results@.len(),
            out@.len() == i,
            forall|j: int|
                0 <= j < i ==> (#[trigger] out@[j])@ == item_of(path@, result_model(results@[j])),
        decreases results@.len() - i,
    {
        let item = match &results[i] {
            Ok(entry) => Item::Variable {
                name: entry.name().to_owned(),
                value: entry.value().to_owned(),
            },
            Err(e) => {
                let mut message = path.to_owned();
                message.append(": ");
                message.append(describe(e).as_str());
                Item::CompileError { message }
            },
        };
        out.push(item);
        i += 1;
    }
    out
}

/// What `dotenv_build!` produces: for each entry of the file a variable to
/// set at the start of the program, and for each line that could not be
/// parsed an error that fails the build. A search that found no file fails
/// with the error of the search.
pub fn dotenv_build(located: Result<EnvFile, NotFoundError>) -> (r: Result<Vec<Item>, NotFoundError>)
    ensures
        match located {
            Ok(file) => r matches Ok(list) && item_models(list@) == items_of(
                path_text(file@.directory, file@.filename),
                parsed(file.contents@),
            ),
            Err(e) => r == Err::<Vec<Item>, NotFoundError>(e),
        },
{
    match located {
        Ok(file) => {
            let path = path_of(&file.directory, file.filename.as_str());
            let results = parse(file.contents.as_str());
            Ok(items(path.as_str(), &results))
        },
        Err(e) => Err(e),
    }
}

/// The name of the module that `dotenv_module!` declares.
pub open spec fn module_name() -> Seq<char> {
    "dotenv_vars"@
}

/// A module of constants: its visibility, which is also that of each
/// constant, its name, and its items in order.
#[derive(Debug, PartialEq, Eq)]
pub struct Module {
    pub visibility: String,
    pub name: String,
    pub items: Vec<Item>,
}

/// What `dotenv_module!` produces: the module `dotenv_vars` with the
/// visibility asked for, holding for each entry of the file a constant of
/// that visibility, and for each line that could not be parsed an error
/// that fails the build. A search that found no file fails with the error
/// of the search.
pub fn dotenv_module(config: ModuleConfig, located: Result<EnvFile, NotFoundError>) -> (r: Result<
    Module,
    NotFoundError,
>)
    ensures
        match located {
            Ok(file) => r matches Ok(module) && module.visibility@ == config@.visibility
                && module.name@ == module_name() && item_models(module.items@) == items_of(
                path_text(file@.directory, file@.filename),
                parsed(file.contents@),
            ),
            Err(e) => r == Err::<Module, NotFoundError>(e),
        },
{
    match dotenv_build(located) {
        Ok(list) => Ok(
            Module { visibility: config.visibility, name: "dotenv_vars".to_owned(), items: list },
        ),
        Err(e) => Err(e),
    }
}

/// A variable that is defined nowhere, with the message to fail with.
#[derive(Debug, PartialEq, Eq)]
pub struct MissingVariableError {
    pub name: String,
    pub message: String,
}

/// The value of the variable that `request` names, given what the
/// environment of the process holds for it: that value, or the error with
/// the message of the request where the environment holds none.
pub fn expand_env(request: LookupRequest, variable: Option<String>) -> (r: Result<
    String,
    MissingVariableError,
>)
    ensures
        match variable {
            Some(value) => r == Ok::<String, MissingVariableError>(value),
            None => r == Err::<String, MissingVariableError>(
                MissingVariableError { name: request.name, message: request.message },
            ),
        },
{
    match variable {
        Some(value) => Ok(value),
        None => Err(MissingVariableError { name: request.name, message: request.message }),
    }
}

/// Why `dotenv!` fails.
#[derive(Debug, PartialEq, Eq)]
pub enum LookupError {
    /// The file is there and could not be read.
    File(NotFoundError),
    /// A line of the file at `path` could not be parsed.
    Parse { path: String, error: ParseError },
    /// The variable is defined neither in the environment nor in the file.
    Missing(MissingVariableError),
}

/// The value that the file, where one was found, holds for `name`: that of
/// the last entry of this name.
pub open spec fn file_value(located: Result<EnvFile, NotFoundError>, name: Seq<char>) -> Option<
    Seq<char>,
> {
    match located {
        Ok(file) => {
            let bound = folded(entries_of(parsed(file.contents@)));
            if bound.contains_key(name) {
                Some(bound[name])
            } else {
                None
            }
        },
        Err(_) => None,
    }
}

/// What `dotenv!` produces: the value of the variable that `request`
/// names. The environment of the process comes first, given here as
/// `variable`; where it holds nothing, the file decides. That no file was
/// found is no error here. A file that could not be read is one, and so is
/// a line that could not be parsed; both come before the lookup.
pub fn dotenv(
    request: LookupRequest,
    variable: Option<String>,
    located: Result<EnvFile, NotFoundError>,
) -> (r: Result<String, LookupError>)
    ensures
        match located {
            Err(NotFoundError::Unreadable { directory }) => r == Err::<String, LookupError>(
                LookupError::File(NotFoundError::Unreadable { directory }),
            ),
            Ok(file) if first_error(parsed(file.contents@)) is Some => r matches Err(
                LookupError::Parse { path, error },
            ) && path@ == path_text(file@.directory, file@.filename) && Some(error)
                == first_error(parsed(file.contents@)),
            _ => match variable {
                Some(value) => r == Ok::<String, LookupError>(value),
                None => match file_value(located, request.name@) {
                    Some(value) => r matches Ok(v) && v@ == value,
                    None => r == Err::<String, LookupError>(
                        LookupError::Missing(
                            MissingVariableError { name: request.name, message: request.message },
                        ),
                    ),
                },
            },
        },
{
    let mut from_file: Option<String> = None;
    match located {
        Err(NotFoundError::Unreadable { directory }) => {
            return Err(LookupError::File(NotFoundError::Unreadable { directory }));
        },
        Err(NotFoundError::Absent) => {},
        Ok(file) => {
            match fold_pass(Parser::new(file.contents.as_str())) {
                Err(error) => {
                    let path = path_of(&file.directory, file.filename.as_str());
                    return Err(LookupError::Parse { path, error });
                },
                Ok(env) => {
                    match env.get(request.name.as_str()) {
                        Some(value) => {
                            from_file = Some(value.to_owned());
                        },
                        None => {},
                    }
                },
            }
        },
    }
    let defined = match variable {
        Some(value) => Some(value),
        None => from_file,
    };
    match expand_env(request, defined) {
        Ok(value) => Ok(value),
        Err(e) => Err(LookupError::Missing(e)),
    }
}

} // verus!
