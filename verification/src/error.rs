//! The outcomes of a dispatch other than plain success, and what the read
//! loop does with each.

use vstd::prelude::*;
use vstd::string::*;

verus! {

/// What a dispatch reports instead of success.
#[derive(Debug, PartialEq, Eq)]
pub enum ExecError {
    /// A failure described by its message.
    Other(String),
    /// The command was given fewer arguments than it needs.
    MissingArgs,
    /// The first word of the line names no command.
    UnknownCommand(String),
    /// Not a failure: the request to end the read loop.
    Quit,
}

/// The result of running one command.
pub type ExecResult = Result<(), ExecError>;

/// The result of dispatching one line: the lines to write out, or the reason
/// why the line was not carried out.
pub type Reply = Result<Vec<String>, ExecError>;

impl ExecError {
    /// The text shown to the user.
    pub open spec fn message_text(&self) -> Seq<char> {
        match self {
            ExecError::Quit => "Quit"@,
            ExecError::UnknownCommand(name) => "Unknown Command "@ + name@,
            ExecError::MissingArgs => "Not enough arguments"@,
            ExecError::Other(text) => text@,
        }
    }

    /// The fixed description of the variant, for diagnostics.
    pub open spec fn description_text(&self) -> Seq<char> {
        match self {
            ExecError::Quit => "The command requested to quit"@,
            ExecError::UnknownCommand(_) => "The provided command is unknown"@,
            ExecError::MissingArgs => "Not enough arguments have been provided"@,
            ExecError::Other(_) => "Other error occured"@,
        }
    }

    /// The text shown to the user: the name of an unknown command after a
    /// fixed prefix, the message of `Other` as it is, a fixed text otherwise.
    pub fn message(&self) -> (r: String)
        ensures
            r@ == self.message_text(),
    {
        match self {
            ExecError::Quit => String::from_str("Quit"),
            ExecError::UnknownCommand(name) => String::from_str("Unknown Command ").concat(
                name.as_str(),
            ),
            ExecError::MissingArgs => String::from_str("Not enough arguments"),
            ExecError::Other(text) => text.clone(),
        }
    }

    /// The fixed description of the variant, which does not depend on what
    /// the variant carries.
    pub fn description(&self) -> (r: &'static str)
        ensures
            r@ == self.description_text(),
    {
        match self {
            ExecError::Quit => "The command requested to quit",
            ExecError::UnknownCommand(_) => "The provided command is unknown",
            ExecError::MissingArgs => "Not enough arguments have been provided",
            ExecError::Other(_) => "Other error occured",
        }
    }
}

/// What the read loop does once a line has been dispatched.
#[derive(Debug, PartialEq, Eq)]
pub enum Step {
    /// Write these lines, show the prompt and read on.
    Continue(Vec<String>),
    /// End the loop and write nothing.
    Stop,
}

/// The lines to write for a reply, and whether the loop goes on.
pub open spec fn step_of(reply: Reply, step: Step) -> bool {
    match reply {
        Ok(lines) => step == Step::Continue(lines),
        Err(ExecError::Quit) => step == Step::Stop,
        Err(e) => step matches Step::Continue(lines) && lines@.len() == 1 && lines@[0]@
            == e.message_text(),
    }
}

/// Decides what the read loop does with a reply: `Quit` ends it silently,
/// any other error is shown as its message, and the lines of a success are
/// written as they are.
pub fn settle(reply: Reply) -> (step: Step)
    ensures
        step_of(reply, step),
{
    match reply {
        Ok(lines) => Step::Continue(lines),
        Err(ExecError::Quit) => Step::Stop,
        Err(e) => {
            let mut lines: Vec<String> = Vec::new();
            lines.push(e.message());
            Step::Continue(lines)
        },
    }
}

} // verus!
