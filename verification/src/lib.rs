//! Reading `.env` files at build time.
//!
//! - [`text`]: characters, trimming and searching.
//! - [`entry`]: what parsing one line yields.
//! - [`line`]: the grammar of one line, `[export ]NAME[=VALUE]`.
//! - [`parser`]: the parser of a whole file.
//! - [`theorems`]: what the grammar promises of whole classes of lines and
//!   files.
//! - [`environment`]: folding entries into a mapping, the last write winning.
//! - [`locator`]: the search for the file from a directory upward.
//! - [`arguments`] and [`config`]: the arguments of the macros and what they
//!   ask for.
//! - [`emit`]: what the macros produce.

pub mod arguments;
pub mod config;
pub mod emit;
pub mod entry;
pub mod environment;
pub mod line;
pub mod locator;
pub mod parser;
pub mod text;
pub mod theorems;

pub use emit::{dotenv, dotenv_build, dotenv_module, expand_env};
pub use entry::{ParseError, ParseErrorKind, ParsedEntry};
pub use environment::{fold, fold_pass, Environment};
pub use locator::{find, EnvFile, Locator, NotFoundError, Probe, Step};
pub use parser::{parse, parse_line, Parser};
