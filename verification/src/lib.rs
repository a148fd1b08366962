//! A gate between a desktop front end and the Windows package manager.
//!
//! A command request is a list of tokens, the first of which is the verb.
//! [`security`] decides whether a request may run at all. [`winget`] plans
//! the shell invocation of an allowed request, takes in what the process
//! writes, and completes the request with a reply and an audit entry;
//! [`listing`] turns the table that a listing command prints into package
//! records, and [`table`] writes records back as such a table. [`audit`]
//! keeps the audit trail and formats its lines, and [`elevation`] holds the
//! decisions around process privilege.
//!
//! The library starts no process and touches no file: the caller performs
//! the steps it is asked for and hands back what happened. [`bridge`] lists
//! the calls into other crates that the proofs rely upon, [`text`] holds
//! the character-level functions underneath, and [`round_trip`] proves
//! that parsing reads a written listing back unchanged.

pub mod audit;
pub mod bridge;
pub mod elevation;
pub mod listing;
pub mod models;
pub mod round_trip;
pub mod security;
pub mod table;
pub mod text;
pub mod winget;
