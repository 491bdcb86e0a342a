//! The errors that end a pass over the tokens.

use vstd::prelude::*;
use vstd::string::StringExecFns;
use crate::text::{decimal, push_decimal};

verus! {

/// What went wrong in a pass. Either error ends the pass at once.
#[derive(Clone, PartialEq, Eq, Debug)]
pub enum HpError {
    /// An argument that needs all of its values got fewer of them: the
    /// argument as written, the number of values found, the number needed.
    NumberOfValues(String, usize, usize),
    /// A subcommand was written while its command was not the active one: the
    /// subcommand as written, and the first alias of its command.
    OutOfContext(String, String),
}

/// An [`HpError`] as plain values.
pub enum HpErrorView {
    NumberOfValues(Seq<char>, nat, nat),
    OutOfContext(Seq<char>, Seq<char>),
}

impl View for HpError {
    type V = HpErrorView;

    open spec fn view(&self) -> HpErrorView {
        match self {
            HpError::NumberOfValues(arg, got, expected) => HpErrorView::NumberOfValues(
                arg@,
                *got as nat,
                *expected as nat,
            ),
            HpError::OutOfContext(arg, parent) => HpErrorView::OutOfContext(arg@, parent@),
        }
    }
}

/// The escape sequence that switches the terminal to red.
pub open spec fn red() -> Seq<char> {
    "\x1b[31m"@
}

/// The escape sequence that switches the terminal to green.
pub open spec fn green() -> Seq<char> {
    "\x1b[32m"@
}

/// The escape sequence that switches the terminal to yellow.
pub open spec fn yellow() -> Seq<char> {
    "\x1b[33m"@
}

/// The escape sequence that switches the terminal back to its own colour.
pub open spec fn plain() -> Seq<char> {
    "\x1b[0m"@
}

/// The line that reports `error` to a user, with its colours.
pub open spec fn message(error: HpErrorView) -> Seq<char> {
    match error {
        HpErrorView::NumberOfValues(arg, got, expected) => red() + "ERROR"@ + plain()
            + ": In argument '"@ + red() + arg + plain() + "', expected '"@ + green() + decimal(
            expected,
        ) + plain() + "' value/s, received '"@ + yellow() + decimal(got) + plain() + "'."@,
        HpErrorView::OutOfContext(arg, parent) => red() + "ERROR"@ + plain()
            + ": Out of context argument, because '"@ + yellow() + arg + plain()
            + "' is a subcommand of '"@ + green() + parent + plain() + "' and '"@ + green()
            + parent + plain() + "' is not present in the command."@,
    }
}

impl HpError {
    /// The line that reports this error to a user, coloured for a terminal.
    pub fn to_string(&self) -> (line: String)
        ensures
            line@ == message(self@),
    {
        let mut line = String::new();
        line.append("\x1b[31m");
        line.append("ERROR");
        line.append("\x1b[0m");
        match self {
            HpError::NumberOfValues(arg, got, expected) => {
                line.append(": In argument '");
                line.append("\x1b[31m");
                line.append(arg.as_str());
                line.append("\x1b[0m");
                line.append("', expected '");
                line.append("\x1b[32m");
                push_decimal(&mut line, *expected);
                line.append("\x1b[0m");
                line.append("' value/s, received '");
                line.append("\x1b[33m");
                push_decimal(&mut line, *got);
                line.append("\x1b[0m");
                line.append("'.");
            },
            HpError::OutOfContext(arg, parent) => {
                line.append(": Out of context argument, because '");
                line.append("\x1b[33m");
                line.append(arg.as_str());
                line.append("\x1b[0m");
                line.append("' is a subcommand of '");
                line.append("\x1b[32m");
                line.append(parent.as_str());
                line.append("\x1b[0m");
                line.append("' and '");
                line.append("\x1b[32m");
                line.append(parent.as_str());
                line.append("\x1b[0m");
                line.append("' is not present in the command.");
            },
        }
        assert(line@ =~= message(self@));
        line
    }
}

} // verus!
