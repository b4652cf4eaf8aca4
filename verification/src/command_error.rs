//! The failure of a command.

use crate::text::{signed_decimal, signed_digits};
use vstd::prelude::*;
use vstd::string::StringExecFns;

verus! {

/// What a process returns where it ended without an exit code of its own, as
/// one that a signal killed.
pub const NO_EXIT_CODE: i32 = -100;

/// A command that failed at its last attempt: the exit code of the process,
/// what it wrote to standard output, and what it wrote to standard error.
#[derive(Debug, PartialEq, Eq)]
pub struct CommandError(pub i32, pub String, pub String);

/// A command's failure as plain values.
pub struct CommandErrorView {
    /// The exit code of the process, or `NO_EXIT_CODE`.
    pub exit_code: i32,
    /// What the process wrote to standard output.
    pub stdout: Seq<char>,
    /// What the process wrote to standard error.
    pub stderr: Seq<char>,
}

impl View for CommandError {
    type V = CommandErrorView;

    open spec fn view(&self) -> CommandErrorView {
        CommandErrorView { exit_code: self.0, stdout: self.1@, stderr: self.2@ }
    }
}

impl CommandErrorView {
    /// The sentence that tells a user of the failure.
    pub open spec fn text(self) -> Seq<char> {
        "Command execution error. Exit code: "@ + signed_digits(self.exit_code as int)
            + " stderr: "@ + self.stderr
    }
}

impl CommandError {
    /// The sentence that tells a user of the failure: it gives the exit code
    /// and what the process wrote to standard error.
    pub fn message(&self) -> (message: String)
        ensures
            message@ == self@.text(),
    {
        let mut message = "Command execution error. Exit code: ".to_owned();
        message.append(signed_decimal(self.0 as i64).as_str());
        message.append(" stderr: ");
        message.append(self.2.as_str());
        message
    }
}

} // verus!
