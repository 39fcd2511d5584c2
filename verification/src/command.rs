//! Runs one command with the secrets in its environment.
//!
//! Starting the process is left to the caller. This module decides what is
//! started, and what the way it ended means: a command that is empty or
//! holds only white space starts nothing and succeeds; any other command
//! is handed whole, as one argument, to the shell of the platform; a status
//! other than zero and a failure to start are errors of their own.

use crate::error::ActionError;
use crate::error::ActionErrorView;
use crate::text::is_blank;
use crate::text::is_blank_text;
use vstd::prelude::*;
use vstd::string::*;

verus! {

/// The shell that runs commands on the platform named `os`.
pub open spec fn shell_for(os: Seq<char>) -> Seq<char> {
    if os == "windows"@ {
        "powershell"@
    } else {
        "/bin/sh"@
    }
}

/// What is started to run a command: `shell flag command`.
#[derive(Debug, PartialEq, Eq)]
pub struct ShellInvocation {
    /// The program.
    pub shell: String,
    /// Its first argument, which makes it read a command from the second.
    pub flag: String,
    /// Its second argument: the command, whole.
    pub command: String,
}

/// A [`ShellInvocation`] with its texts as sequences of characters.
pub struct ShellInvocationView {
    pub shell: Seq<char>,
    pub flag: Seq<char>,
    pub command: Seq<char>,
}

impl View for ShellInvocation {
    type V = ShellInvocationView;

    open spec fn view(&self) -> ShellInvocationView {
        ShellInvocationView { shell: self.shell@, flag: self.flag@, command: self.command@ }
    }
}

/// What is started for `run_cmd` on the platform `os`: nothing for a blank
/// command.
pub open spec fn invocation_for(run_cmd: Seq<char>, os: Seq<char>) -> Option<ShellInvocationView> {
    if is_blank(run_cmd) {
        None
    } else {
        Some(ShellInvocationView { shell: shell_for(os), flag: "-c"@, command: run_cmd })
    }
}

/// How a process that was started came to its end.
#[derive(Debug, PartialEq, Eq)]
pub struct ExitReport {
    /// Whether it ended with the status zero.
    pub success: bool,
    /// Its exit code, where the system reports one.
    pub code: Option<i32>,
    /// The system's description of how it ended.
    pub status: String,
}

/// An [`ExitReport`] with its description as a sequence of characters.
pub struct ExitReportView {
    pub success: bool,
    pub code: Option<i32>,
    pub status: Seq<char>,
}

impl View for ExitReport {
    type V = ExitReportView;

    open spec fn view(&self) -> ExitReportView {
        ExitReportView { success: self.success, code: self.code, status: self.status@ }
    }
}

/// What the attempt to run a command comes to. `outcome` is the report of
/// the process, or the reason why none was started.
pub open spec fn run_result(outcome: Result<ExitReportView, Seq<char>>) -> Result<
    (),
    ActionErrorView,
> {
    match outcome {
        Ok(report) => if report.success {
            Ok(())
        } else {
            Err(ActionErrorView::CommandFailed { code: report.code, status: report.status })
        },
        Err(cause) => Err(ActionErrorView::SpawnFailed { cause }),
    }
}

/// The shell that runs commands on the platform named `os`.
pub fn shell_for_os(os: &str) -> (r: String)
    ensures
        r@ == shell_for(os@),
{
    if String::from_str(os) == String::from_str("windows") {
        String::from_str("powershell")
    } else {
        String::from_str("/bin/sh")
    }
}

/// Decides what is started to run `run_cmd` on the platform `os`.
pub fn plan_run_command(run_cmd: &str, os: &str) -> (r: Option<ShellInvocation>)
    ensures
        match r {
            Some(invocation) => invocation_for(run_cmd@, os@) == Some(invocation@),
            None => invocation_for(run_cmd@, os@) is None,
        },
{
    if is_blank_text(run_cmd) {
        None
    } else {
        Some(
            ShellInvocation {
                shell: shell_for_os(os),
                flag: String::from_str("-c"),
                command: String::from_str(run_cmd),
            },
        )
    }
}

/// Says what the attempt to run a command comes to.
pub fn conclude_run_command(outcome: Result<ExitReport, String>) -> (r: Result<(), ActionError>)
    ensures
        match r {
            Ok(_) => run_result(outcome_view(outcome)) is Ok,
            Err(error) => run_result(outcome_view(outcome)) == Err::<(), ActionErrorView>(error@),
        },
{
    match outcome {
        Ok(report) => {
            if report.success {
                Ok(())
            } else {
                Err(ActionError::CommandFailed { code: report.code, status: report.status })
            }
        },
        Err(cause) => Err(ActionError::SpawnFailed { cause }),
    }
}

/// The outcome as the contracts see it.
pub open spec fn outcome_view(outcome: Result<ExitReport, String>) -> Result<
    ExitReportView,
    Seq<char>,
> {
    match outcome {
        Ok(report) => Ok(report@),
        Err(cause) => Err(cause@),
    }
}

} // verus!
