//! A chat-command identity lookup service core.
//!
//! A user issues a text command naming one or more user-directory entries,
//! either by numeric id or by login name.  The library authenticates the
//! invocation, turns the free-form text into a batched directory query,
//! interprets the directory service's answer, and renders the outcome as a
//! structured chat message.  Transport, secret retrieval and process
//! bootstrap are left to the surrounding application; every decision the
//! service makes lives here, with a verified contract.

pub mod auth;
pub mod directory;
pub mod handler;
pub mod message;
pub mod query;
