//! The course of one run, from the input to the exposure of the secrets.
//!
//! A run reads its input, logs in to the vault, asks for the secrets, joins
//! what comes back with the identifier map, and exposes the result: to the
//! later steps of the job, or to one command, never to both. Each of the
//! steps has to succeed before the next one is taken.
//!
//! Talking to the vault is the caller's work. The types of this module
//! hold the run between two calls: what the caller has to do next can only
//! be had from the outcome of what it did before.

use crate::command::invocation_for;
use crate::command::plan_run_command;
use crate::command::ShellInvocation;
use crate::error::ActionError;
use crate::error::ActionErrorView;
use crate::identifier::SecretId;
use crate::mapping::IdentifierMap;
use crate::parser::line_is_malformed;
use crate::parser::parse_secret_input;
use crate::parser::read_lines;
use crate::parser::texts;
use crate::parser::DuplicateWarning;
use crate::parser::ParsedInput;
use crate::parser::Reading;
use crate::persist::effect_views;
use crate::persist::persist_secrets;
use crate::persist::persists_entry;
use crate::persist::Effect;
use crate::projection::prepare_secret_env_vars;
use crate::projection::project;
use crate::projection::record_views;
use crate::projection::EnvProjection;
use crate::projection::SecretRecord;
use vstd::prelude::*;

verus! {

/// A run that has read its input and waits to be logged in.
#[derive(Debug)]
pub struct AwaitingLogin {
    parsed: ParsedInput,
}

/// A run that is logged in and waits for the secrets it asks for.
#[derive(Debug)]
pub struct AwaitingSecrets {
    names: IdentifierMap,
}

/// How the secrets are exposed.
#[derive(Debug, PartialEq, Eq)]
pub enum Exposure {
    /// To the later steps of the job, by these effects in their order.
    Persist(Vec<Effect>),
    /// To one command, which is started like this with the secrets added
    /// to the environment it inherits. Nothing is masked and nothing is
    /// written to the environment file.
    Run(ShellInvocation),
    /// Not at all: a command was configured, and it is blank.
    Nothing,
}

/// Reads the input. No call goes to the vault before every line of it has
/// been read.
pub fn begin(secret_lines: Vec<String>) -> (r: Result<AwaitingLogin, ActionError>)
    ensures
        r is Err <==> exists|i: int| line_is_malformed(texts(secret_lines@), i),
        match r {
            Ok(run) => read_lines(texts(secret_lines@)) == Ok::<Reading, ActionErrorView>(
                run.reading(),
            ),
            Err(error) => read_lines(texts(secret_lines@)) == Err::<Reading, ActionErrorView>(
                error@,
            ),
        },
{
    match parse_secret_input(secret_lines) {
        Ok(parsed) => Ok(AwaitingLogin { parsed }),
        Err(error) => Err(error),
    }
}

impl AwaitingLogin {
    /// What was read from the input.
    pub closed spec fn reading(&self) -> Reading {
        self.parsed@
    }

    /// The warnings that reading the input gave rise to, to be reported.
    pub fn warnings(&self) -> (r: &Vec<DuplicateWarning>)
        ensures
            r@.map_values(|warning: DuplicateWarning| warning@) == self.reading().warnings,
    {
        &self.parsed.warnings
    }

    /// Takes the outcome of the login: `Ok`, or the reason that the vault
    /// gave for refusing the access token.
    pub fn logged_in(self, outcome: Result<(), String>) -> (r: Result<AwaitingSecrets, ActionError>)
        ensures
            match outcome {
                Ok(_) => match r {
                    Ok(run) => run.names() == self.reading().names,
                    Err(_) => false,
                },
                Err(cause) => match r {
                    Ok(_) => false,
                    Err(error) => error@ == (ActionErrorView::AuthenticationFailed {
                        cause: cause@,
                    }),
                },
            },
    {
        match outcome {
            Ok(_) => Ok(AwaitingSecrets { names: self.parsed.map }),
            Err(cause) => Err(ActionError::AuthenticationFailed { cause }),
        }
    }
}

impl AwaitingSecrets {
    /// The names by identifier.
    pub closed spec fn names(&self) -> Map<u128, Seq<char>> {
        self.names@
    }

    /// The identifiers to ask the vault for: those of the input, each of
    /// them once.
    pub fn wanted(&self) -> (r: Vec<SecretId>)
        ensures
            r@.no_duplicates(),
            r@.len() == self.names().len(),
            forall|id: SecretId| r@.contains(id) <==> self.names().contains_key(id.value),
    {
        self.names.ids()
    }

    /// Takes the outcome of the request: the records that the vault
    /// returned, or the reason it gave for returning none.
    pub fn resolved(self, outcome: Result<Vec<SecretRecord>, String>) -> (r: Result<
        EnvProjection,
        ActionError,
    >)
        ensures
            match outcome {
                Ok(records) => match r {
                    Ok(env) => env@ == project(record_views(records@), self.names()),
                    Err(_) => false,
                },
                Err(cause) => match r {
                    Ok(_) => false,
                    Err(error) => error@ == (ActionErrorView::ResolutionFailed { cause: cause@ }),
                },
            },
    {
        match outcome {
            Ok(records) => Ok(prepare_secret_env_vars(records.as_slice(), &self.names)),
            Err(cause) => Err(ActionError::ResolutionFailed { cause }),
        }
    }
}

/// Decides how the secrets are exposed. `run` is the command that was
/// configured, if one was.
///
/// Without a command the secrets are persisted. With a command they are
/// exposed to that command alone; a blank command exposes them to nothing.
pub fn plan_exposure(env: &EnvProjection, run: Option<&str>, os: &str) -> (r: Exposure)
    ensures
        match run {
            None => match r {
                Exposure::Persist(effects) => {
                    &&& effects@.len() == 4 * env.listing().len()
                    &&& forall|i: int|
                        0 <= i < env.listing().len() ==> #[trigger] persists_entry(
                            effect_views(effects@),
                            i,
                            env.listing()[i].0@,
                            env.listing()[i].1@,
                        )
                },
                _ => false,
            },
            Some(run_cmd) => match r {
                Exposure::Persist(_) => false,
                Exposure::Run(invocation) => invocation_for(run_cmd@, os@) == Some(invocation@),
                Exposure::Nothing => invocation_for(run_cmd@, os@) is None,
            },
        },
{
    match run {
        None => Exposure::Persist(persist_secrets(env)),
        Some(run_cmd) => match plan_run_command(run_cmd, os) {
            Some(invocation) => Exposure::Run(invocation),
            None => Exposure::Nothing,
        },
    }
}

} // verus!
