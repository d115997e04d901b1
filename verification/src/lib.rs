//! An authenticated content-rewriting filter in front of an HTTP origin.
//!
//! The filter reads who sent a request, lets the request through to the
//! origin unchanged, and looks at the reply. Where the body of the reply is a
//! launch descriptor that holds a ticket parameter, the value of that
//! parameter gets a signed, time-bound token and the caller's session
//! credential appended; every other reply passes untouched.
//!
//! - [`identity`] derives the caller's address and session credential from
//!   the headers of the request, with [`cookies`] parsing the `Cookie` header.
//! - [`response`] holds the reply, the classifier and the emitter.
//! - [`token`] signs the caller's address and a timestamp.
//! - [`credential`] decodes and cleans the credential that is embedded.
//! - [`rewrite`] finds the ticket parameters and rewrites their values.
//! - [`pipeline`] holds the configuration and the decisions that lead one
//!   request through these parts.
//! - [`text`] holds the text primitives that the others share, and
//!   [`error`] the errors that end a request.
//!
//! The contracts speak of the sequence of characters that a text holds. The
//! functions are verified against them, but for the few that call another
//! crate, which say what is taken on trust. The library does no input or
//! output: the caller reads headers, forwards the request and reads the clock.

pub mod cookies;
pub mod credential;
pub mod error;
pub mod identity;
pub mod pipeline;
pub mod response;
pub mod rewrite;
pub mod text;
pub mod token;
