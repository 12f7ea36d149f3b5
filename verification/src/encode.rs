//! The request encoder: turns a query text into the body of the request, a
//! JSON object on one line with the single field `query`.

use crate::text::{append_chars, from_chars, to_chars};
use vstd::prelude::*;

verus! {

/// What one character of the query text becomes in the body: a line feed or
/// carriage return vanishes, a double quote gets a backslash in front, and
/// every other character stays as it is.
pub open spec fn escaped_char(c: char) -> Seq<char> {
    if c == '\n' || c == '\r' {
        Seq::empty()
    } else if c == '"' {
        seq!['\\', '"']
    } else {
        seq![c]
    }
}

/// The query text with each character escaped, in order.
pub open spec fn escaped(text: Seq<char>) -> Seq<char>
    decreases text.len(),
{
    if text.len() == 0 {
        Seq::empty()
    } else {
        escaped(text.drop_last()) + escaped_char(text.last())
    }
}

/// What stands before the escaped query text in the body: `{"query": "`.
pub open spec fn body_head() -> Seq<char> {
    seq!['{', '"', 'q', 'u', 'e', 'r', 'y', '"', ':', ' ', '"']
}

/// What stands behind the escaped query text in the body: `"}`.
pub open spec fn body_tail() -> Seq<char> {
    seq!['"', '}']
}

/// The body of the request for a query text.
pub open spec fn request_body(query: Seq<char>) -> Seq<char> {
    body_head() + escaped(query) + body_tail()
}

/// A character that the encoder leaves as it is.
pub open spec fn plain_char(c: char) -> bool {
    c != '\n' && c != '\r' && c != '"'
}

/// A query text on one line and without double quotes is escaped to itself,
/// however often, so its body is the text between the fixed head and tail.
pub proof fn lemma_plain_text_unchanged(query: Seq<char>)
    requires
        forall|i: int| 0 <= i < query.len() ==> plain_char(#[trigger] query[i]),
    ensures
        escaped(query) == query,
        escaped(escaped(query)) == escaped(query),
        request_body(query) == body_head() + query + body_tail(),
    decreases query.len(),
{
    if query.len() > 0 {
        lemma_plain_text_unchanged(query.drop_last());
        assert(plain_char(query[query.len() - 1]));
        assert(query.drop_last() + seq![query.last()] =~= query);
    }
}

/// The escaped text is on one line, and each of its double quotes stands
/// behind a backslash.
pub proof fn lemma_escaped_is_one_line(text: Seq<char>, at: int)
    requires
        0 <= at < escaped(text).len(),
    ensures
        escaped(text)[at] != '\n',
        escaped(text)[at] != '\r',
        escaped(text)[at] == '"' ==> at > 0 && escaped(text)[at - 1] == '\\',
    decreases text.len(),
{
    if text.len() > 0 {
        let front = escaped(text.drop_last());
        if at < front.len() {
            lemma_escaped_is_one_line(text.drop_last(), at);
        }
    }
}

/// The body of a request is on one line, whatever the query text holds.
pub proof fn lemma_request_body_is_one_line(query: Seq<char>, at: int)
    requires
        0 <= at < request_body(query).len(),
    ensures
        request_body(query)[at] != '\n',
        request_body(query)[at] != '\r',
{
    let inner = at - body_head().len();
    if 0 <= inner < escaped(query).len() {
        lemma_escaped_is_one_line(query, inner);
    }
}

/// The body of the request for a query text: `{"query": "<text>"}`, where
/// `<text>` is the query text without its line feeds and carriage returns and
/// with a backslash before each double quote. Nothing else is escaped.
pub fn query_to_json(query: &str) -> (body: String)
    ensures
        body@ == request_body(query@),
{
    let chars = to_chars(query);
    let mut out: Vec<char> = Vec::new();
    append_chars(&mut out, &['{', '"', 'q', 'u', 'e', 'r', 'y', '"', ':', ' ', '"']);
    assert(out@ =~= body_head());
    let mut at: usize = 0;
    assert(chars@.take(0) =~= Seq::<char>::empty());
    while at < chars.len()
        invariant
            at <= chars.len(),
            out@ == body_head() + escaped(chars@.take(at as int)),
        decreases chars.len() - at,
    {
        let c = chars[at];
        proof {
            assert(chars@.take(at + 1).drop_last() =~= chars@.take(at as int));
            assert(chars@.take(at + 1).last() == c);
        }
        if c == '"' {
            out.push('\\');
            out.push('"');
        } else if c != '\n' && c != '\r' {
            out.push(c);
        }
        assert(out@ =~= body_head() + escaped(chars@.take(at + 1)));
        at = at + 1;
    }
    assert(chars@.take(at as int) =~= chars@);
    out.push('"');
    out.push('}');
    assert(out@ =~= request_body(query@));
    from_chars(out.as_slice())
}

} // verus!
