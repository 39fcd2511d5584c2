//! Exposes secrets held in a vault to the steps of a CI job.
//!
//! The crate holds the rules of that work and proves them: how the lines
//! `UUID > NAME` are read into an identifier map, how the records that the
//! vault returns are joined against that map, how a value is framed for the
//! environment file so that no content can end its own frame, and what a
//! command run with the secrets in its environment is reported as. Reading
//! configuration, talking to the vault, writing files and starting processes
//! are left to the program that links this library.

pub mod action;
pub mod command;
pub mod error;
pub mod identifier;
pub mod mapping;
pub mod parser;
pub mod persist;
pub mod projection;
pub mod text;
