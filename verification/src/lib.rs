//! A small line-oriented text search library.
//!
//! `config` turns a raw argument list into a validated [`config::Config`],
//! `search` splits file contents into lines and returns the lines that
//! contain a query string, either case-sensitively or after ASCII case
//! folding, and `error` holds the error taxonomy shared by both.

pub mod config;
pub mod error;
pub mod search;
