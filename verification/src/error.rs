//! The ways in which a run fails. Each of them ends the run at once.

use vstd::prelude::*;
use vstd::string::*;

verus! {

/// A fatal error of a run.
#[derive(Debug, PartialEq, Eq)]
pub enum ActionError {
    /// A line whose identifier is no UUID. `text` is that identifier as it
    /// was written, without the white space around it.
    MalformedIdentifier { text: String },
    /// The vault rejected the access token.
    AuthenticationFailed { cause: String },
    /// The vault did not return the secrets that were asked for.
    ResolutionFailed { cause: String },
    /// The command ran and ended with a status other than zero. `code` is
    /// the exit code where the system reports one, `status` the system's
    /// description of how the command ended.
    CommandFailed { code: Option<i32>, status: String },
    /// The command could not be started.
    SpawnFailed { cause: String },
}

/// An [`ActionError`] with its texts as sequences of characters.
pub enum ActionErrorView {
    MalformedIdentifier { text: Seq<char> },
    AuthenticationFailed { cause: Seq<char> },
    ResolutionFailed { cause: Seq<char> },
    CommandFailed { code: Option<i32>, status: Seq<char> },
    SpawnFailed { cause: Seq<char> },
}

impl View for ActionError {
    type V = ActionErrorView;

    open spec fn view(&self) -> ActionErrorView {
        match self {
            ActionError::MalformedIdentifier { text } => ActionErrorView::MalformedIdentifier {
                text: text@,
            },
            ActionError::AuthenticationFailed { cause } => ActionErrorView::AuthenticationFailed {
                cause: cause@,
            },
            ActionError::ResolutionFailed { cause } => ActionErrorView::ResolutionFailed {
                cause: cause@,
            },
            ActionError::CommandFailed { code, status } => ActionErrorView::CommandFailed {
                code: *code,
                status: status@,
            },
            ActionError::SpawnFailed { cause } => ActionErrorView::SpawnFailed { cause: cause@ },
        }
    }
}

/// What an error says of itself.
pub open spec fn message_of(error: ActionErrorView) -> Seq<char> {
    match error {
        ActionErrorView::MalformedIdentifier { text } => "Invalid UUID format: "@ + text,
        ActionErrorView::AuthenticationFailed { cause } =>
            "Authentication with Bitwarden failed.\nError: "@ + cause,
        ActionErrorView::ResolutionFailed { cause } =>
            "The secrets provided could not be found. Please check the machine account has access to the secret UUIDs provided.\nError: "@
                + cause,
        ActionErrorView::CommandFailed { code, status } =>
            "Commands exited with non-zero status: "@ + status,
        ActionErrorView::SpawnFailed { cause } => "Failed to execute commands: "@ + cause,
    }
}

/// What is written to the error stream when a run ends with an error. A
/// malformed identifier is reported by a hint at the format of the input;
/// any other error by its message.
pub open spec fn report_of(error: ActionErrorView) -> Seq<char> {
    match error {
        ActionErrorView::MalformedIdentifier { text } =>
            "Failed to parse secrets input. Ensure the format is 'UUID > Name'."@,
        _ => message_of(error),
    }
}

impl ActionError {
    /// What is written to the error stream when a run ends with this
    /// error.
    pub fn report(&self) -> (r: String)
        ensures
            r@ == report_of(self@),
    {
        match self {
            ActionError::MalformedIdentifier { text } => {
                String::from_str(
                    "Failed to parse secrets input. Ensure the format is 'UUID > Name'.",
                )
            },
            _ => self.message(),
        }
    }

    /// What the error says of itself.
    pub fn message(&self) -> (r: String)
        ensures
            r@ == message_of(self@),
    {
        match self {
            ActionError::MalformedIdentifier { text } => {
                String::from_str("Invalid UUID format: ").concat(text.as_str())
            },
            ActionError::AuthenticationFailed { cause } => {
                String::from_str("Authentication with Bitwarden failed.\nError: ").concat(
                    cause.as_str(),
                )
            },
            ActionError::ResolutionFailed { cause } => {
                String::from_str(
                    "The secrets provided could not be found. Please check the machine account has access to the secret UUIDs provided.\nError: ",
                ).concat(cause.as_str())
            },
            ActionError::CommandFailed { code, status } => {
                String::from_str("Commands exited with non-zero status: ").concat(status.as_str())
            },
            ActionError::SpawnFailed { cause } => {
                String::from_str("Failed to execute commands: ").concat(cause.as_str())
            },
        }
    }
}

} // verus!
