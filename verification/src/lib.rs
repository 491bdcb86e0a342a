//! `hp` matches command line tokens against registered argument templates.
//!
//! A [`Parser`] holds templates, each with its aliases, the number of values it
//! takes and, for a subcommand, the identifier of the command it belongs to.
//! [`Parser::parse`] walks a list of tokens once, from left to right, and
//! returns the arguments it found as [`ParsedArguments`], or the first
//! [`HpError`].
//!
//! Everything here is free of input and output: the help text is returned as a
//! `String`, and a request for help is reported in the result.

pub mod errors;
pub mod help;
pub mod laws;
pub mod matching;
pub mod parsed;
pub mod parser;
pub mod template;
pub mod text;

pub use errors::HpError;
pub use matching::{is_help_alias, Pass};
pub use parsed::{ParsedArgument, ParsedArguments};
pub use parser::Parser;
pub use template::{Template, TemplateId};
