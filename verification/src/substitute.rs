//! The placeholder substitutor: puts the values of an argument map in the
//! place of the markers `$x:<key>` in a query text.

use crate::args::{ArgumentMap, Entries};
use crate::error::QueryError;
use crate::text::{
    append_chars, contains, from_chars, lemma_replace_all_leaves_none, occurs, occurs_at, replace,
    replace_all, share_no_char, to_chars,
};
use vstd::prelude::*;

verus! {

/// What every marker begins with: `$x:`.
pub open spec fn marker_prefix() -> Seq<char> {
    seq!['$', 'x', ':']
}

/// The marker of a key: `$x:` followed by the key.
pub open spec fn marker(key: Seq<char>) -> Seq<char> {
    marker_prefix() + key
}

/// One step of the substitution: every marker of `key` in `text` replaced by
/// `value`, or nothing where `text` holds no marker of `key`.
pub open spec fn substitute_entry(text: Seq<char>, key: Seq<char>, value: Seq<char>) -> Option<
    Seq<char>,
> {
    if occurs(text, marker(key)) {
        Some(replace_all(text, marker(key), value))
    } else {
        None
    }
}

/// The substitution of all entries, one after the other in their order, each
/// on the text that the entries before it have left; nothing as soon as one
/// entry finds no marker of its key.
pub open spec fn substitute(text: Seq<char>, entries: Entries) -> Option<Seq<char>>
    decreases entries.len(),
{
    if entries.len() == 0 {
        Some(text)
    } else {
        match substitute(text, entries.drop_last()) {
            Some(so_far) => substitute_entry(so_far, entries.last().0, entries.last().1),
            None => None,
        }
    }
}

/// Once the first entries fail, all of them fail.
pub proof fn lemma_substitute_fails_on(text: Seq<char>, entries: Entries, first: int)
    requires
        0 <= first <= entries.len(),
        substitute(text, entries.take(first)) is None,
    ensures
        substitute(text, entries) is None,
    decreases entries.len() - first,
{
    if first < entries.len() {
        assert(entries.take(first + 1).drop_last() =~= entries.take(first));
        lemma_substitute_fails_on(text, entries, first + 1);
    } else {
        assert(entries.take(first) =~= entries);
    }
}

/// A single entry is substituted in one step.
pub proof fn lemma_substitute_one(text: Seq<char>, key: Seq<char>, value: Seq<char>)
    ensures
        substitute(text, seq![(key, value)]) == substitute_entry(text, key, value),
{
    let entries = seq![(key, value)];
    assert(entries.drop_last() =~= Entries::empty());
    assert(substitute(text, entries.drop_last()) == Some(text));
}

/// A marker occurs only where the marker prefix `$x:` occurs.
pub proof fn lemma_marker_needs_prefix(text: Seq<char>, key: Seq<char>)
    requires
        occurs(text, marker(key)),
    ensures
        occurs(text, marker_prefix()),
{
    let at = choose|at: int| occurs_at(text, marker(key), at);
    let whole = text.subrange(at, at + marker(key).len());
    assert(text.subrange(at, at + marker_prefix().len()) =~= whole.subrange(
        0,
        marker_prefix().len() as int,
    ));
    assert(marker(key).subrange(0, marker_prefix().len() as int) =~= marker_prefix());
    assert(occurs_at(text, marker_prefix(), at));
}

/// A query text without any marker comes back unchanged where there is
/// nothing to substitute, and is refused by every map that has an entry.
pub proof fn lemma_substitute_without_markers(text: Seq<char>, entries: Entries)
    requires
        !occurs(text, marker_prefix()),
    ensures
        entries.len() == 0 ==> substitute(text, entries) == Some(text),
        entries.len() > 0 ==> substitute(text, entries) is None,
        substitute(text, entries) matches Some(result) ==> result == text,
{
    if entries.len() > 0 {
        if occurs(text, marker(entries[0].0)) {
            lemma_marker_needs_prefix(text, entries[0].0);
        }
        assert(entries.take(1).drop_last() =~= Entries::empty());
        assert(substitute(text, entries.take(1).drop_last()) == Some(text));
        assert(entries.take(1).last() == entries[0]);
        lemma_substitute_fails_on(text, entries, 1);
    }
}

/// With a single entry whose marker occurs in the query text, the result is
/// the query text with every occurrence of that marker replaced by the value.
/// Where the value is not empty and shares no character with the marker, no
/// marker of the key is left in the result.
pub proof fn lemma_substitute_single(text: Seq<char>, key: Seq<char>, value: Seq<char>)
    requires
        occurs(text, marker(key)),
    ensures
        substitute(text, seq![(key, value)]) == Some(replace_all(text, marker(key), value)),
        value.len() > 0 && share_no_char(value, marker(key)) ==> !occurs(
            replace_all(text, marker(key), value),
            marker(key),
        ),
{
    lemma_substitute_one(text, key, value);
    if value.len() > 0 && share_no_char(value, marker(key)) {
        lemma_replace_all_leaves_none(text, marker(key), value);
    }
}

/// A key whose marker stands neither in the query text nor in the text as the
/// entries before it have left it makes the substitution fail.
pub proof fn lemma_substitute_unknown_key(text: Seq<char>, entries: Entries, at: int)
    requires
        0 <= at < entries.len(),
        !occurs(text, marker(entries[at].0)),
        substitute(text, entries.take(at)) matches Some(so_far) ==> !occurs(
            so_far,
            marker(entries[at].0),
        ),
    ensures
        substitute(text, entries) is None,
{
    assert(entries.take(at + 1).drop_last() =~= entries.take(at));
    assert(entries.take(at + 1).last() == entries[at]);
    lemma_substitute_fails_on(text, entries, at + 1);
}

/// The marker of a key, as characters.
fn marker_of(key: &str) -> (m: Vec<char>)
    ensures
        m@ == marker(key@),
{
    let mut m: Vec<char> = Vec::new();
    m.push('$');
    m.push('x');
    m.push(':');
    assert(m@ =~= marker_prefix());
    let key_chars = to_chars(key);
    append_chars(&mut m, key_chars.as_slice());
    m
}

/// Replaces, for each entry of `args` in turn, every marker `$x:<key>` in the
/// query text by the entry's value. The values go in as they are.
///
/// Fails with `UnknownArgumentKey` as soon as the text, as the entries before
/// have left it, holds no marker of an entry's key; no text is returned then.
/// With no entries the query text comes back unchanged.
pub fn build_query_str(query_str: &str, args: &ArgumentMap) -> (result: Result<String, QueryError>)
    ensures
        match result {
            Ok(text) => substitute(query_str@, args@) == Some(text@),
            Err(error) => error == QueryError::UnknownArgumentKey && substitute(
                query_str@,
                args@,
            ) is None,
        },
{
    let mut text = to_chars(query_str);
    let count = args.len();
    let mut done: usize = 0;
    assert(args@.take(0) =~= Entries::empty());
    loop
        invariant
            done <= count == args@.len(),
            substitute(query_str@, args@.take(done as int)) == Some(text@),
        decreases args@.len() - done,
    {
        match args.entry(done) {
            None => {
                assert(args@.take(done as int) =~= args@);
                return Ok(from_chars(text.as_slice()));
            },
            Some((key, value)) => {
                let pattern = marker_of(key.as_str());
                let replacement = to_chars(value.as_str());
                proof {
                    assert(args@.take(done + 1).drop_last() =~= args@.take(done as int));
                    assert(args@.take(done + 1).last() == args@[done as int]);
                }
                if !contains(text.as_slice(), pattern.as_slice()) {
                    proof {
                        lemma_substitute_fails_on(query_str@, args@, done + 1);
                    }
                    return Err(QueryError::UnknownArgumentKey);
                }
                text = replace(text.as_slice(), pattern.as_slice(), replacement.as_slice());
                done = done + 1;
            },
        }
    }
}

} // verus!
