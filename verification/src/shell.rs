//! The decisions of the command-line shell: what an invocation asks for, and
//! what is to be done next after each piece of outside work. Reading the
//! query file, sending the request and writing the result are left to the
//! caller, who reports back what they gave.

use crate::args::{put, ArgumentMap, Entries};
use crate::error::QueryError;
use crate::request::{query_file_with_args, query_with_args, request_for, response_text, Request};
use crate::substitute::substitute;
use crate::text::{from_chars, to_chars};
use vstd::prelude::*;

verus! {

/// The separator `=` stands at `at` in an extra argument, and nowhere else.
pub open spec fn separator_at(extra: Seq<char>, at: int) -> bool {
    &&& 0 <= at < extra.len()
    &&& extra[at] == '='
    &&& forall|other: int| 0 <= other < extra.len() && other != at ==> extra[other] != '='
}

/// The key and the value of an extra argument `key=value`: what stands before
/// and behind its one separator. Nothing where it has no separator or more
/// than one.
pub open spec fn split_extra(extra: Seq<char>) -> Option<(Seq<char>, Seq<char>)> {
    if exists|at: int| separator_at(extra, at) {
        let at = choose|at: int| separator_at(extra, at);
        Some((extra.take(at), extra.skip(at + 1)))
    } else {
        None
    }
}

/// A key and a value without `=`, joined by `=`, split into that key and that
/// value again; and whatever an extra argument splits into is such a pair.
pub proof fn lemma_split_extra_joins(extra: Seq<char>, key: Seq<char>, value: Seq<char>)
    ensures
        split_extra(extra) == Some((key, value)) <==> {
            &&& extra == key + seq!['='] + value
            &&& !key.contains('=')
            &&& !value.contains('=')
        },
{
    let joined = key + seq!['='] + value;
    if extra == joined && !key.contains('=') && !value.contains('=') {
        assert forall|other: int|
            0 <= other < joined.len() && other != key.len() implies joined[other] != '=' by {
            if other < key.len() {
                assert(key.contains(joined[other]));
            } else {
                assert(value[other - key.len() - 1] == joined[other]);
                assert(value.contains(joined[other]));
            }
        }
        assert(separator_at(joined, key.len() as int));
        let at = choose|at: int| separator_at(joined, at);
        assert(at == key.len());
        assert(joined.take(at) =~= key);
        assert(joined.skip(at + 1) =~= value);
    }
    if split_extra(extra) == Some((key, value)) {
        let at = choose|at: int| separator_at(extra, at);
        assert(separator_at(extra, at));
        assert(extra =~= joined);
        if key.contains('=') {
            let i = choose|i: int| 0 <= i < key.len() && key[i] == '=';
            assert(extra[i] == '=');
        }
        if value.contains('=') {
            let i = choose|i: int| 0 <= i < value.len() && value[i] == '=';
            assert(extra[at + 1 + i] == '=');
        }
    }
}

/// The argument map that a list of extra arguments stands for: each one put
/// under its key in turn, so that of two with the same key the later one
/// wins. Nothing where one of them is malformed.
pub open spec fn parsed_extras(extras: Seq<Seq<char>>) -> Option<Entries>
    decreases extras.len(),
{
    if extras.len() == 0 {
        Some(Entries::empty())
    } else {
        match (parsed_extras(extras.drop_last()), split_extra(extras.last())) {
            (Some(entries), Some((key, value))) => Some(put(entries, key, value)),
            _ => None,
        }
    }
}

/// The texts of a list of strings.
pub open spec fn texts(strings: Seq<String>) -> Seq<Seq<char>> {
    Seq::new(strings.len(), |i: int| strings[i]@)
}

/// Once the first extra arguments do not parse, the whole list does not.
proof fn lemma_parsed_extras_fails_on(extras: Seq<Seq<char>>, first: int)
    requires
        0 <= first <= extras.len(),
        parsed_extras(extras.take(first)) is None,
    ensures
        parsed_extras(extras) is None,
    decreases extras.len() - first,
{
    if first < extras.len() {
        assert(extras.take(first + 1).drop_last() =~= extras.take(first));
        lemma_parsed_extras_fails_on(extras, first + 1);
    } else {
        assert(extras.take(first) =~= extras);
    }
}

/// Splits an extra argument `key=value` into its key and its value. Either
/// may be empty. Fails with `MalformedExtraArgument` where the argument does
/// not hold exactly one `=`.
pub fn parse_extra(extra: &str) -> (result: Result<(String, String), QueryError>)
    ensures
        match split_extra(extra@) {
            Some((key, value)) => result matches Ok(pair) && pair.0@ == key && pair.1@ == value,
            None => result == Err::<(String, String), QueryError>(
                QueryError::MalformedExtraArgument,
            ),
        },
{
    let chars = to_chars(extra);
    let mut key: Vec<char> = Vec::new();
    let mut value: Vec<char> = Vec::new();
    let mut separator: Option<usize> = None;
    let mut at: usize = 0;
    while at < chars.len()
        invariant
            at <= chars.len(),
            chars@ == extra@,
            match separator {
                None => {
                    &&& forall|seen: int| 0 <= seen < at ==> chars@[seen] != '='
                    &&& key@ == chars@.take(at as int)
                    &&& value@ == Seq::<char>::empty()
                },
                Some(found) => {
                    &&& found < at
                    &&& chars@[found as int] == '='
                    &&& forall|seen: int| 0 <= seen < at && seen != found ==> chars@[seen] != '='
                    &&& key@ == chars@.take(found as int)
                    &&& value@ == chars@.subrange(found + 1, at as int)
                },
            },
        decreases chars.len() - at,
    {
        let c = chars[at];
        if c == '=' {
            if separator.is_some() {
                assert forall|any: int| !separator_at(extra@, any) by {
                    if separator_at(extra@, any) {
                        assert(any == at || any == separator->0);
                    }
                }
                return Err(QueryError::MalformedExtraArgument);
            }
            separator = Some(at);
            assert(value@ =~= chars@.subrange(at + 1, at + 1));
        } else if separator.is_none() {
            key.push(c);
            assert(key@ =~= chars@.take(at + 1));
        } else {
            value.push(c);
            assert(value@ =~= chars@.subrange(separator->0 + 1, at + 1));
        }
        at = at + 1;
    }
    match separator {
        None => Err(QueryError::MalformedExtraArgument),
        Some(found) => {
            proof {
                assert(separator_at(extra@, found as int));
                let chosen = choose|any: int| separator_at(extra@, any);
                assert(chosen == found);
                assert(value@ =~= extra@.skip(found + 1));
            }
            Ok((from_chars(key.as_slice()), from_chars(value.as_slice())))
        },
    }
}

/// The argument map for a list of extra arguments, each of the form
/// `key=value`. Of two with the same key the later one wins. Fails with
/// `MalformedExtraArgument` where one of them is malformed.
pub fn parse_extras(extras: &[String]) -> (result: Result<ArgumentMap, QueryError>)
    ensures
        match parsed_extras(texts(extras@)) {
            Some(entries) => result matches Ok(args) && args@ == entries,
            None => result matches Err(QueryError::MalformedExtraArgument),
        },
{
    let ghost all = texts(extras@);
    let mut args = ArgumentMap::new();
    let mut at: usize = 0;
    assert(all.take(0) =~= Seq::<Seq<char>>::empty());
    while at < extras.len()
        invariant
            at <= extras.len(),
            all == texts(extras@),
            parsed_extras(all.take(at as int)) == Some(args@),
        decreases extras.len() - at,
    {
        proof {
            assert(all.take(at + 1).drop_last() =~= all.take(at as int));
            assert(all.take(at + 1).last() == extras@[at as int]@);
        }
        match parse_extra(extras[at].as_str()) {
            Ok((key, value)) => {
                args.insert(key, value);
            },
            Err(error) => {
                proof {
                    lemma_parsed_extras_fails_on(all, at + 1);
                }
                return Err(error);
            },
        }
        at = at + 1;
    }
    assert(all.take(at as int) =~= all);
    Ok(args)
}

/// What the command line of one invocation holds.
#[derive(Debug, PartialEq, Eq)]
pub struct Invocation {
    /// The endpoint.
    pub url: String,
    /// The bearer token.
    pub token: String,
    /// The path of a file that holds the query text.
    pub file: Option<String>,
    /// The query text itself; where it is given, `file` is not looked at.
    pub query: Option<String>,
    /// The path of the file that the response goes to; standard output where
    /// none is given.
    pub output: Option<String>,
    /// The extra arguments, each of the form `key=value`.
    pub extras: Vec<String>,
}

/// Where the query text comes from.
#[derive(Debug, PartialEq, Eq)]
pub enum QuerySource {
    /// The text was given on the command line.
    Literal(String),
    /// The text stands in the file with this path.
    File(String),
}

/// An invocation that has been found in order: it names its query source, and
/// its extra arguments have become an argument map.
#[derive(Debug, PartialEq, Eq)]
pub struct Plan {
    pub url: String,
    pub token: String,
    pub source: QuerySource,
    pub args: ArgumentMap,
    pub output: Option<String>,
}

/// What the shell has to do next.
#[derive(Debug, PartialEq, Eq)]
pub enum Step {
    /// Read the query file and report with `Plan::after_read`.
    ReadFile { path: String },
    /// Send the request and report with `Plan::after_send`.
    Send { request: Request },
    /// Write the text to the file and report with `Plan::after_write`.
    WriteFile { path: String, text: String },
    /// Print `stdout` to standard output, if there is any, report `error` to
    /// the user, if there is one, and leave with the exit code of the error, or
    /// with zero where there is none.
    Exit { stdout: Option<String>, error: Option<QueryError> },
}

/// The query source of an invocation: the literal text where one is given,
/// else the file.
pub open spec fn source_of(query: Option<String>, file: Option<String>) -> Option<QuerySource> {
    match (query, file) {
        (Some(text), _) => Some(QuerySource::Literal(text)),
        (None, Some(path)) => Some(QuerySource::File(path)),
        (None, None) => None,
    }
}

/// Looks an invocation over before any outside work is done.
///
/// Fails with `QuerySourceMissing` where neither a query text nor a query
/// file is given, and otherwise with `MalformedExtraArgument` where an extra
/// argument is malformed. Where both are in order, the plan holds the
/// invocation's values, the query source and the argument map.
pub fn plan(invocation: Invocation) -> (result: Result<Plan, QueryError>)
    ensures
        match (
            source_of(invocation.query, invocation.file),
            parsed_extras(texts(invocation.extras@)),
        ) {
            (None, _) => result matches Err(QueryError::QuerySourceMissing),
            (Some(_), None) => result matches Err(QueryError::MalformedExtraArgument),
            (Some(source), Some(entries)) => {
                &&& result matches Ok(plan)
                &&& plan.url == invocation.url
                &&& plan.token == invocation.token
                &&& plan.source == source
                &&& plan.args@ == entries
                &&& plan.output == invocation.output
            },
        },
{
    let Invocation { url, token, file, query, output, extras } = invocation;
    let source = match (query, file) {
        (Some(text), _) => QuerySource::Literal(text),
        (None, Some(path)) => QuerySource::File(path),
        (None, None) => {
            return Err(QueryError::QuerySourceMissing);
        },
    };
    match parse_extras(extras.as_slice()) {
        Ok(args) => Ok(Plan { url, token, source, args, output }),
        Err(error) => Err(error),
    }
}

impl Plan {
    /// `step` is what follows once the query text is known: the request for
    /// the text with the plan's arguments substituted is sent, or the
    /// invocation ends with `UnknownArgumentKey`.
    pub open spec fn dispatches(&self, query: Seq<char>, step: Step) -> bool {
        match substitute(query, self.args@) {
            Some(text) => step matches Step::Send { request } && request@ == request_for(
                self.url@,
                self.token@,
                text,
            ),
            None => step == Step::Exit {
                stdout: None,
                error: Some(QueryError::UnknownArgumentKey),
            },
        }
    }

    /// The first step: a literal query is dispatched at once, a query file
    /// is to be read.
    pub fn first_step(&self) -> (step: Step)
        ensures
            match self.source {
                QuerySource::Literal(text) => self.dispatches(text@, step),
                QuerySource::File(path) => step == Step::ReadFile { path },
            },
    {
        match &self.source {
            QuerySource::Literal(text) => self.dispatch(
                query_with_args(self.url.as_str(), self.token.as_str(), text.as_str(), &self.args),
            ),
            QuerySource::File(path) => Step::ReadFile { path: path.clone() },
        }
    }

    /// The step after the query file was read. `contents` is what reading
    /// gave: the text, which is dispatched, or the cause of the failure, with
    /// which the invocation ends in `FileReadError`.
    pub fn after_read(&self, contents: Result<String, String>) -> (step: Step)
        ensures
            match contents {
                Ok(text) => self.dispatches(text@, step),
                Err(cause) => step == Step::Exit {
                    stdout: None,
                    error: Some(QueryError::FileReadError(cause)),
                },
            },
    {
        self.dispatch(
            query_file_with_args(self.url.as_str(), self.token.as_str(), contents, &self.args),
        )
    }

    /// The step for a request that was or was not made.
    fn dispatch(&self, prepared: Result<Request, QueryError>) -> (step: Step)
        ensures
            match prepared {
                Ok(request) => step == Step::Send { request },
                Err(error) => step == Step::Exit { stdout: None, error: Some(error) },
            },
    {
        match prepared {
            Ok(request) => Step::Send { request },
            Err(error) => Step::Exit { stdout: None, error: Some(error) },
        }
    }

    /// The step after the request was sent. `sent` is the body of the
    /// response, or nothing where the transport failed. The body goes to the
    /// output file where the plan names one, else to standard output; a
    /// failed transport ends the invocation with `TransportError`.
    pub fn after_send(&self, sent: Option<String>) -> (step: Step)
        ensures
            match (sent, self.output) {
                (None, _) => step == Step::Exit {
                    stdout: None,
                    error: Some(QueryError::TransportError),
                },
                (Some(text), None) => step == Step::Exit { stdout: Some(text), error: None },
                (Some(text), Some(path)) => step == Step::WriteFile { path, text },
            },
    {
        match response_text(sent) {
            Err(error) => Step::Exit { stdout: None, error: Some(error) },
            Ok(text) => match &self.output {
                None => Step::Exit { stdout: Some(text), error: None },
                Some(path) => Step::WriteFile { path: path.clone(), text },
            },
        }
    }

    /// The step after the output file was or was not written. Where it was
    /// not, the text goes to standard output instead, `OutputWriteError` is
    /// reported, and the invocation still ends well.
    pub fn after_write(&self, text: String, written: bool) -> (step: Step)
        ensures
            step == if written {
                Step::Exit { stdout: None, error: None }
            } else {
                Step::Exit { stdout: Some(text), error: Some(QueryError::OutputWriteError) }
            },
    {
        if written {
            Step::Exit { stdout: None, error: None }
        } else {
            Step::Exit { stdout: Some(text), error: Some(QueryError::OutputWriteError) }
        }
    }
}

} // verus!
