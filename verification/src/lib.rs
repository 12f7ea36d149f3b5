//! Core of a command-line client that posts a query to a remote endpoint:
//! placeholder substitution, request-body encoding, request preparation and
//! the decisions of the command-line shell.
//!
//! The library computes and decides; it performs no input or output. The
//! program around it reads the query file, sends the request and writes the
//! result, and reports back what each of them gave.

pub mod args;
pub mod encode;
pub mod error;
pub mod order;
pub mod request;
pub mod shell;
pub mod substitute;
pub mod text;

pub use args::ArgumentMap;
pub use encode::query_to_json;
pub use error::QueryError;
pub use request::{
    query, query_file, query_file_with_args, query_with_args, response_text, Header, Request,
};
pub use substitute::build_query_str;
