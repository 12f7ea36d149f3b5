//! The query dispatcher, as far as it computes: the request that is sent for
//! a query, and what the answer of the transport means. Sending is left to
//! the caller.

use crate::args::ArgumentMap;
use crate::encode::{query_to_json, request_body};
use crate::error::QueryError;
use crate::substitute::{build_query_str, substitute};
use vstd::prelude::*;
use vstd::string::StringExecFns;

verus! {

/// One header of a request.
#[derive(Debug, PartialEq, Eq)]
pub struct Header {
    pub name: String,
    pub value: String,
}

/// A POST request, ready to be sent.
#[derive(Debug, PartialEq, Eq)]
pub struct Request {
    /// The endpoint the request goes to.
    pub url: String,
    /// The headers, in the order in which they are set.
    pub headers: Vec<Header>,
    /// The body.
    pub body: String,
}

/// A request as plain values; each header is a pair of name and value.
pub struct RequestView {
    pub url: Seq<char>,
    pub headers: Seq<(Seq<char>, Seq<char>)>,
    pub body: Seq<char>,
}

impl View for Request {
    type V = RequestView;

    open spec fn view(&self) -> RequestView {
        RequestView {
            url: self.url@,
            headers: Seq::new(
                self.headers@.len(),
                |i: int| (self.headers@[i].name@, self.headers@[i].value@),
            ),
            body: self.body@,
        }
    }
}

/// The headers of every request: the fixed user agent, the bearer token and
/// the content type of the body.
pub open spec fn headers_for(token: Seq<char>) -> Seq<(Seq<char>, Seq<char>)> {
    seq![
        ("User-Agent"@, "graphquery"@),
        ("Authorization"@, "Bearer "@ + token),
        ("Content-Type"@, "application/json"@),
    ]
}

/// The request that asks the endpoint at `url` the given query.
pub open spec fn request_for(url: Seq<char>, token: Seq<char>, query: Seq<char>) -> RequestView {
    RequestView { url, headers: headers_for(token), body: request_body(query) }
}

/// The request for a query text: a POST to `url` with the three fixed
/// headers and the encoded query as its body.
pub fn query(url: &str, token: &str, query_str: &str) -> (request: Request)
    ensures
        request@ == request_for(url@, token@, query_str@),
{
    let mut headers: Vec<Header> = Vec::new();
    headers.push(
        Header { name: String::from_str("User-Agent"), value: String::from_str("graphquery") },
    );
    headers.push(
        Header {
            name: String::from_str("Authorization"),
            value: String::from_str("Bearer ").concat(token),
        },
    );
    headers.push(
        Header {
            name: String::from_str("Content-Type"),
            value: String::from_str("application/json"),
        },
    );
    let request = Request { url: url.to_owned(), headers, body: query_to_json(query_str) };
    assert(request@.headers =~= headers_for(token@));
    request
}

/// The request for a query text with placeholders: the values of `args` are
/// put in the place of their markers first, and the request is made for the
/// text that results. Fails with `UnknownArgumentKey` exactly where the
/// substitution does.
pub fn query_with_args(url: &str, token: &str, query_str: &str, args: &ArgumentMap) -> (result:
    Result<Request, QueryError>)
    ensures
        match substitute(query_str@, args@) {
            Some(text) => result matches Ok(request) && request@ == request_for(
                url@,
                token@,
                text,
            ),
            None => result == Err::<Request, QueryError>(QueryError::UnknownArgumentKey),
        },
{
    match build_query_str(query_str, args) {
        Ok(new_query_str) => Ok(query(url, token, new_query_str.as_str())),
        Err(err) => Err(err),
    }
}

/// The request for a query text that was to be read from a file. `contents`
/// is what reading gave: the text, or the cause of the failure, which comes
/// back in `FileReadError`.
pub fn query_file(url: &str, token: &str, contents: Result<String, String>) -> (result: Result<
    Request,
    QueryError,
>)
    ensures
        match contents {
            Ok(query_str) => result matches Ok(request) && request@ == request_for(
                url@,
                token@,
                query_str@,
            ),
            Err(cause) => result == Err::<Request, QueryError>(QueryError::FileReadError(cause)),
        },
{
    match contents {
        Ok(query_str) => Ok(query(url, token, query_str.as_str())),
        Err(cause) => Err(QueryError::FileReadError(cause)),
    }
}

/// The request for a query text with placeholders that was to be read from a
/// file. `contents` is what reading gave: the text, or the cause of the
/// failure, which comes back in `FileReadError`. Fails with
/// `UnknownArgumentKey` where the text was read and the substitution fails.
pub fn query_file_with_args(
    url: &str,
    token: &str,
    contents: Result<String, String>,
    args: &ArgumentMap,
) -> (result: Result<Request, QueryError>)
    ensures
        match contents {
            Ok(query_str) => match substitute(query_str@, args@) {
                Some(text) => result matches Ok(request) && request@ == request_for(
                    url@,
                    token@,
                    text,
                ),
                None => result == Err::<Request, QueryError>(QueryError::UnknownArgumentKey),
            },
            Err(cause) => result == Err::<Request, QueryError>(QueryError::FileReadError(cause)),
        },
{
    match contents {
        Ok(query_str) => query_with_args(url, token, query_str.as_str(), args),
        Err(cause) => Err(QueryError::FileReadError(cause)),
    }
}

/// What the answer of the transport means. `sent` is the body of the
/// response as text, whatever its status, or nothing where the request could
/// not be sent or the body could not be read: that is a `TransportError`.
pub fn response_text(sent: Option<String>) -> (result: Result<String, QueryError>)
    ensures
        match sent {
            Some(text) => result == Ok::<String, QueryError>(text),
            None => result == Err::<String, QueryError>(QueryError::TransportError),
        },
{
    match sent {
        Some(text) => Ok(text),
        None => Err(QueryError::TransportError),
    }
}

} // verus!
