//! What the macros make of their arguments: the file to read, the
//! visibility of the module, the variable to look up and the message for
//! its absence.

use crate::arguments::{Argument, ArgumentError};
use crate::text::same_text;
use vstd::prelude::*;
use vstd::string::StringExecFns;

verus! {

/// The name of the file where none is given.
pub open spec fn default_filename() -> Seq<char> {
    ".env"@
}

/// The visibility of the module where none is given.
pub open spec fn default_visibility() -> Seq<char> {
    "pub"@
}

/// The message for a variable that is not defined, where none is given.
pub open spec fn default_message(name: Seq<char>) -> Seq<char> {
    "environment variable '"@ + name + "' not defined"@
}

/// The content of a text or an error.
pub open spec fn text_result<E>(r: Result<String, E>) -> Result<Seq<char>, E> {
    match r {
        Ok(s) => Ok(s@),
        Err(e) => Err(e),
    }
}

/// The file that `dotenv_build!` reads. Only the first argument counts: it
/// must be an assignment, and names the file where it assigns a string
/// literal to `filename`.
pub open spec fn build_filename_of(args: Seq<Argument>) -> Result<Seq<char>, ArgumentError> {
    if args.len() == 0 {
        Ok(default_filename())
    } else {
        match args[0] {
            Argument::Other => Err(ArgumentError::NotAssignment),
            Argument::Assign { target, literal } => if target@ == "filename"@ {
                match literal {
                    Some(l) => Ok(l.text@),
                    None => Err(ArgumentError::NotStringLiteral),
                }
            } else {
                Ok(default_filename())
            },
        }
    }
}

/// Computes [`build_filename_of`].
pub fn build_filename(args: &Vec<Argument>) -> (r: Result<String, ArgumentError>)
    ensures
        text_result(r) == build_filename_of(args@),
{
    if args.len() == 0 {
        return Ok(".env".to_owned());
    }
    match &args[0] {
        Argument::Other => Err(ArgumentError::NotAssignment),
        Argument::Assign { target, literal } => {
            if same_text(target.as_str(), "filename") {
                match literal {
                    Some(l) => Ok(l.text.clone()),
                    None => Err(ArgumentError::NotStringLiteral),
                }
            } else {
                Ok(".env".to_owned())
            }
        },
    }
}

/// The mathematical content of a [`ModuleConfig`].
pub struct ModuleModel {
    pub filename: Seq<char>,
    pub visibility: Seq<char>,
}

/// What `dotenv_module!` is asked for: the file to read, and the visibility
/// of the module and of its constants, as tokens.
#[derive(Debug, PartialEq, Eq)]
pub struct ModuleConfig {
    pub filename: String,
    pub visibility: String,
}

impl View for ModuleConfig {
    type V = ModuleModel;

    open spec fn view(&self) -> ModuleModel {
        ModuleModel { filename: self.filename@, visibility: self.visibility@ }
    }
}

/// What one argument of `dotenv_module!` makes of the configuration so far.
/// An assignment to `visibility` or `filename` must assign a string literal,
/// and the one to `visibility` a literal that holds a visibility; an
/// assignment to anything else changes nothing.
pub open spec fn with_argument(config: ModuleModel, arg: Argument) -> Result<
    ModuleModel,
    ArgumentError,
> {
    match arg {
        Argument::Other => Err(ArgumentError::NotAssignment),
        Argument::Assign { target, literal } => if target@ == "visibility"@ {
            match literal {
                None => Err(ArgumentError::NotStringLiteral),
                Some(l) => match l.visibility {
                    None => Err(ArgumentError::InvalidVisibility),
                    Some(v) => Ok(ModuleModel { filename: config.filename, visibility: v@ }),
                },
            }
        } else if target@ == "filename"@ {
            match literal {
                None => Err(ArgumentError::NotStringLiteral),
                Some(l) => Ok(ModuleModel { filename: l.text@, visibility: config.visibility }),
            }
        } else {
            Ok(config)
        },
    }
}

/// The configuration that the arguments of `dotenv_module!` give: each
/// argument in turn changes the defaults, a later one overriding an earlier
/// one, and the first argument that is refused decides the error.
pub open spec fn module_config_of(args: Seq<Argument>) -> Result<ModuleModel, ArgumentError>
    decreases args.len(),
{
    if args.len() == 0 {
        Ok(ModuleModel { filename: default_filename(), visibility: default_visibility() })
    } else {
        match module_config_of(args.drop_last()) {
            Ok(config) => with_argument(config, args.last()),
            Err(e) => Err(e),
        }
    }
}

/// An error among the first `n` arguments is the error of them all.
proof fn lemma_module_error(args: Seq<Argument>, n: int)
    requires
        0 <= n <= args.len(),
        module_config_of(args.take(n)) is Err,
    ensures
        module_config_of(args) == module_config_of(args.take(n)),
    decreases args.len() - n,
{
    if n == args.len() {
        assert(args.take(n) =~= args);
    } else {
        assert(args.take(n + 1).drop_last() =~= args.take(n));
        lemma_module_error(args, n + 1);
    }
}

/// The content of a configuration or an error.
pub open spec fn module_result(r: Result<ModuleConfig, ArgumentError>) -> Result<
    ModuleModel,
    ArgumentError,
> {
    match r {
        Ok(c) => Ok(c@),
        Err(e) => Err(e),
    }
}

/// Computes [`module_config_of`].
pub fn module_config(args: &Vec<Argument>) -> (r: Result<ModuleConfig, ArgumentError>)
    ensures
        module_result(r) == module_config_of(args@),
{
    let mut filename = ".env".to_owned();
    let mut visibility = "pub".to_owned();
    let mut i: usize = 0;
    while i < args.len()
        invariant
            i <= args@.len(),
            module_config_of(args@.take(i as int)) == Ok::<ModuleModel, ArgumentError>(
                ModuleModel { filename: filename@, visibility: visibility@ },
            ),
        decreases args@.len() - i,
    {
        proof {
            assert(args@.take(i + 1).drop_last() =~= args@.take(i as int));
            if module_config_of(args@.take(i + 1)) is Err {
                lemma_module_error(args@, i + 1);
            }
        }
        match &args[i] {
            Argument::Other => {
                return Err(ArgumentError::NotAssignment);
            },
            Argument::Assign { target, literal } => {
                if same_text(target.as_str(), "visibility") {
                    match literal {
                        None => {
                            return Err(ArgumentError::NotStringLiteral);
                        },
                        Some(l) => match &l.visibility {
                            None => {
                                return Err(ArgumentError::InvalidVisibility);
                            },
                            Some(v) => {
                                visibility = v.clone();
                            },
                        },
                    }
                } else if same_text(target.as_str(), "filename") {
                    match literal {
                        None => {
                            return Err(ArgumentError::NotStringLiteral);
                        },
                        Some(l) => {
                            filename = l.text.clone();
                        },
                    }
                }
            },
        }
        i += 1;
    }
    proof {
        assert(args@.take(i as int) =~= args@);
    }
    Ok(ModuleConfig { filename, visibility })
}

/// The mathematical content of a [`LookupRequest`].
pub struct LookupModel {
    pub name: Seq<char>,
    pub message: Seq<char>,
}

/// What `dotenv!` is asked for: the variable, and the message with which
/// the macro fails where the variable is not defined.
#[derive(Debug, PartialEq, Eq)]
pub struct LookupRequest {
    pub name: String,
    pub message: String,
}

impl View for LookupRequest {
    type V = LookupModel;

    open spec fn view(&self) -> LookupModel {
        LookupModel { name: self.name@, message: self.message@ }
    }
}

/// The request that the string literals of `dotenv!` give: the first is the
/// name, the second, where there is one, the message; the macro takes no
/// more than these two.
pub open spec fn lookup_request_of(literals: Seq<String>) -> Result<LookupModel, ArgumentError> {
    if literals.len() == 0 {
        Err(ArgumentError::MissingName)
    } else if literals.len() == 1 {
        Ok(LookupModel { name: literals[0]@, message: default_message(literals[0]@) })
    } else if literals.len() == 2 {
        Ok(LookupModel { name: literals[0]@, message: literals[1]@ })
    } else {
        Err(ArgumentError::TooManyArguments)
    }
}

/// The content of a request or an error.
pub open spec fn lookup_result(r: Result<LookupRequest, ArgumentError>) -> Result<
    LookupModel,
    ArgumentError,
> {
    match r {
        Ok(c) => Ok(c@),
        Err(e) => Err(e),
    }
}

/// Computes [`lookup_request_of`].
pub fn lookup_request(literals: &Vec<String>) -> (r: Result<LookupRequest, ArgumentError>)
    ensures
        lookup_result(r) == lookup_request_of(literals@),
{
    if literals.len() == 0 {
        Err(ArgumentError::MissingName)
    } else if literals.len() == 1 {
        let name = literals[0].clone();
        let mut message = "environment variable '".to_owned();
        message.append(name.as_str());
        message.append("' not defined");
        Ok(LookupRequest { name, message })
    } else if literals.len() == 2 {
        Ok(LookupRequest { name: literals[0].clone(), message: literals[1].clone() })
    } else {
        Err(ArgumentError::TooManyArguments)
    }
}

} // verus!
