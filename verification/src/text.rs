//! Character sequences: the plain-text operations the rest of the crate is
//! built from, stated over `Seq<char>`.

use vstd::prelude::*;

verus! {

/// `pattern` stands in `text` at position `at`.
pub open spec fn occurs_at(text: Seq<char>, pattern: Seq<char>, at: int) -> bool {
    &&& 0 <= at
    &&& at + pattern.len() <= text.len()
    &&& text.subrange(at, at + pattern.len()) == pattern
}

/// `pattern` stands somewhere in `text`.
pub open spec fn occurs(text: Seq<char>, pattern: Seq<char>) -> bool {
    exists|at: int| occurs_at(text, pattern, at)
}

/// `text` with every occurrence of `pattern` replaced by `replacement`.
///
/// Occurrences are taken from left to right and do not overlap: once one is
/// replaced, the search goes on behind it, and what was put in is not searched
/// again. An empty pattern replaces nothing.
pub open spec fn replace_all(text: Seq<char>, pattern: Seq<char>, replacement: Seq<char>) -> Seq<
    char,
>
    decreases text.len(),
{
    if pattern.len() == 0 || text.len() == 0 {
        text
    } else if occurs_at(text, pattern, 0) {
        replacement + replace_all(text.skip(pattern.len() as int), pattern, replacement)
    } else {
        seq![text[0]] + replace_all(text.skip(1), pattern, replacement)
    }
}

/// An occurrence in a suffix of the text is an occurrence in the text, shifted.
pub proof fn lemma_occurs_at_skip(text: Seq<char>, pattern: Seq<char>, from: int, at: int)
    requires
        0 <= from <= text.len(),
        0 <= at,
    ensures
        occurs_at(text.skip(from), pattern, at) <==> occurs_at(text, pattern, from + at),
{
    if from + at + pattern.len() <= text.len() {
        assert(text.skip(from).subrange(at, at + pattern.len()) =~= text.subrange(
            from + at,
            from + at + pattern.len(),
        ));
    }
}

/// Where the pattern does not occur, nothing is replaced.
pub proof fn lemma_replace_all_absent(text: Seq<char>, pattern: Seq<char>, replacement: Seq<char>)
    requires
        !occurs(text, pattern),
    ensures
        replace_all(text, pattern, replacement) == text,
    decreases text.len(),
{
    if pattern.len() != 0 && text.len() != 0 {
        assert(!occurs_at(text, pattern, 0));
        assert forall|at: int| !occurs_at(text.skip(1), pattern, at) by {
            if 0 <= at {
                lemma_occurs_at_skip(text, pattern, 1, at);
            }
        }
        lemma_replace_all_absent(text.skip(1), pattern, replacement);
        assert(seq![text[0]] + text.skip(1) =~= text);
    }
}

/// The text stays as it is up to a position before which the pattern does
/// not occur; from there the replacing goes on.
pub proof fn lemma_replace_all_skips(
    text: Seq<char>,
    pattern: Seq<char>,
    replacement: Seq<char>,
    upto: int,
)
    requires
        pattern.len() > 0,
        0 <= upto <= text.len(),
        forall|at: int| 0 <= at < upto ==> !occurs_at(text, pattern, at),
    ensures
        replace_all(text, pattern, replacement) == text.take(upto) + replace_all(
            text.skip(upto),
            pattern,
            replacement,
        ),
    decreases upto,
{
    if upto == 0 {
        assert(text.skip(0) =~= text);
        assert(text.take(0) + text =~= text);
    } else {
        let rest = text.skip(1);
        assert(!occurs_at(text, pattern, 0));
        assert forall|at: int| 0 <= at < upto - 1 implies !occurs_at(rest, pattern, at) by {
            lemma_occurs_at_skip(text, pattern, 1, at);
        }
        lemma_replace_all_skips(rest, pattern, replacement, upto - 1);
        let tail = replace_all(text.skip(upto), pattern, replacement);
        assert(rest.skip(upto - 1) =~= text.skip(upto));
        assert(seq![text[0]] + (rest.take(upto - 1) + tail) =~= text.take(upto) + tail);
    }
}

/// Up to the first occurrence of the pattern the text stays as it is, the
/// occurrence itself becomes the replacement, and behind it the replacing
/// goes on.
pub proof fn lemma_replace_all_first(
    text: Seq<char>,
    pattern: Seq<char>,
    replacement: Seq<char>,
    first: int,
)
    requires
        pattern.len() > 0,
        occurs_at(text, pattern, first),
        forall|earlier: int| 0 <= earlier < first ==> !occurs_at(text, pattern, earlier),
    ensures
        replace_all(text, pattern, replacement) == text.take(first) + replacement + replace_all(
            text.skip(first + pattern.len()),
            pattern,
            replacement,
        ),
{
    lemma_replace_all_skips(text, pattern, replacement, first);
    lemma_occurs_at_skip(text, pattern, first, 0);
    assert(text.skip(first).skip(pattern.len() as int) =~= text.skip(first + pattern.len()));
    let tail = replace_all(text.skip(first + pattern.len()), pattern, replacement);
    assert(text.take(first) + (replacement + tail) =~= text.take(first) + replacement + tail);
}

/// No character of `a` is a character of `b`.
pub open spec fn share_no_char(a: Seq<char>, b: Seq<char>) -> bool {
    forall|i: int, j: int| 0 <= i < a.len() && 0 <= j < b.len() ==> a[i] != b[j]
}

/// As far as the replaced text begins with characters that the replacement
/// does not have, it begins as the text itself does, and the pattern does not
/// occur there.
pub proof fn lemma_replace_all_untouched_start(
    text: Seq<char>,
    pattern: Seq<char>,
    replacement: Seq<char>,
    upto: int,
)
    requires
        pattern.len() > 0,
        replacement.len() > 0,
        0 <= upto <= replace_all(text, pattern, replacement).len(),
        forall|i: int|
            0 <= i < upto ==> !replacement.contains(
                #[trigger] replace_all(text, pattern, replacement)[i],
            ),
    ensures
        upto <= text.len(),
        replace_all(text, pattern, replacement).take(upto) == text.take(upto),
        forall|at: int| 0 <= at < upto ==> !occurs_at(text, pattern, at),
    decreases upto,
{
    let replaced = replace_all(text, pattern, replacement);
    if upto > 0 {
        if occurs_at(text, pattern, 0) {
            assert(replaced[0] == replacement[0]);
            assert(replacement.contains(replaced[0]));
        }
        let rest = text.skip(1);
        let rest_replaced = replace_all(rest, pattern, replacement);
        assert forall|i: int| 0 <= i < upto - 1 implies !replacement.contains(
            #[trigger] rest_replaced[i],
        ) by {
            assert(rest_replaced[i] == replaced[i + 1]);
        }
        lemma_replace_all_untouched_start(rest, pattern, replacement, upto - 1);
        assert(replaced.take(upto) =~= text.take(upto)) by {
            assert forall|i: int| 0 <= i < upto implies replaced[i] == text[i] by {
                if i > 0 {
                    assert(rest_replaced.take(upto - 1)[i - 1] == rest.take(upto - 1)[i - 1]);
                }
            }
        }
        assert forall|at: int| 0 <= at < upto implies !occurs_at(text, pattern, at) by {
            if at > 0 {
                lemma_occurs_at_skip(text, pattern, 1, at - 1);
            }
        }
    } else {
        assert(replaced.take(0) =~= text.take(0));
    }
}

/// Where the replacement is not empty and shares no character with the
/// pattern, no occurrence of the pattern is left after the replacing.
pub proof fn lemma_replace_all_leaves_none(
    text: Seq<char>,
    pattern: Seq<char>,
    replacement: Seq<char>,
)
    requires
        pattern.len() > 0,
        replacement.len() > 0,
        share_no_char(replacement, pattern),
    ensures
        !occurs(replace_all(text, pattern, replacement), pattern),
    decreases text.len(),
{
    let replaced = replace_all(text, pattern, replacement);
    if text.len() > 0 {
        if occurs_at(text, pattern, 0) {
            let rest = text.skip(pattern.len() as int);
            let rest_replaced = replace_all(rest, pattern, replacement);
            lemma_replace_all_leaves_none(rest, pattern, replacement);
            assert forall|at: int| !occurs_at(replaced, pattern, at) by {
                if occurs_at(replaced, pattern, at) {
                    if at < replacement.len() {
                        assert(replaced.subrange(at, at + pattern.len())[0] == pattern[0]);
                        assert(replaced[at] == replacement[at]);
                    } else {
                        assert(rest_replaced.subrange(
                            at - replacement.len(),
                            at - replacement.len() + pattern.len(),
                        ) =~= replaced.subrange(at, at + pattern.len()));
                        assert(occurs_at(rest_replaced, pattern, at - replacement.len()));
                    }
                }
            }
        } else {
            let rest = text.skip(1);
            let rest_replaced = replace_all(rest, pattern, replacement);
            lemma_replace_all_leaves_none(rest, pattern, replacement);
            assert forall|at: int| !occurs_at(replaced, pattern, at) by {
                if occurs_at(replaced, pattern, at) {
                    if at == 0 {
                        assert forall|i: int| 0 <= i < pattern.len() implies !replacement.contains(
                            #[trigger] replaced[i],
                        ) by {
                            assert(replaced.subrange(0, pattern.len() as int)[i] == pattern[i]);
                        }
                        lemma_replace_all_untouched_start(
                            text,
                            pattern,
                            replacement,
                            pattern.len() as int,
                        );
                    } else {
                        assert(rest_replaced.subrange(at - 1, at - 1 + pattern.len())
                            =~= replaced.subrange(at, at + pattern.len()));
                        assert(occurs_at(rest_replaced, pattern, at - 1));
                    }
                }
            }
        }
    } else {
        assert forall|at: int| !occurs_at(replaced, pattern, at) by {}
    }
}

/// The characters of a string, in order.
pub fn to_chars(s: &str) -> (chars: Vec<char>)
    ensures
        chars@ == s@,
{
    let mut chars: Vec<char> = Vec::new();
    for c in it: s.chars()
        invariant
            chars@ == it.seq().take(it.index() as int),
    {
        chars.push(c);
    }
    chars
}

/// `String::push` of the standard library, which appends one character to the
/// end of a string: the string afterwards is the string before followed by `c`.
#[verifier::external_body]
fn push_char(s: &mut String, c: char)
    ensures
        final(s)@ == old(s)@.push(c),
{
    s.push(c);
}

/// The string made of the given characters, in order.
pub fn from_chars(chars: &[char]) -> (s: String)
    ensures
        s@ == chars@,
{
    let mut s = String::new();
    let mut at: usize = 0;
    while at < chars.len()
        invariant
            at <= chars.len(),
            s@ == chars@.take(at as int),
        decreases chars.len() - at,
    {
        push_char(&mut s, chars[at]);
        at = at + 1;
    }
    s
}

/// Appends `more` to `out`.
pub fn append_chars(out: &mut Vec<char>, more: &[char])
    ensures
        final(out)@ == old(out)@ + more@,
{
    let mut at: usize = 0;
    while at < more.len()
        invariant
            at <= more.len(),
            out@ == old(out)@ + more@.take(at as int),
        decreases more.len() - at,
    {
        out.push(more[at]);
        at = at + 1;
    }
}

/// Whether `pattern` stands in `text` at position `at`.
pub fn starts_at(text: &[char], pattern: &[char], at: usize) -> (found: bool)
    ensures
        found == occurs_at(text@, pattern@, at as int),
{
    if at > text.len() || pattern.len() > text.len() - at {
        return false;
    }
    let mut k: usize = 0;
    while k < pattern.len()
        invariant
            k <= pattern.len(),
            at + pattern.len() <= text.len(),
            forall|j: int| 0 <= j < k ==> text@[at + j] == pattern@[j],
        decreases pattern.len() - k,
    {
        if text[at + k] != pattern[k] {
            assert(text@.subrange(at as int, at + pattern@.len())[k as int] != pattern@[k as int]);
            return false;
        }
        k = k + 1;
    }
    assert(text@.subrange(at as int, at + pattern@.len()) =~= pattern@);
    true
}

/// The position of the first occurrence of `pattern` in `text`, if there is one.
pub fn find(text: &[char], pattern: &[char]) -> (first: Option<usize>)
    ensures
        match first {
            Some(at) => occurs_at(text@, pattern@, at as int) && forall|earlier: int|
                0 <= earlier < at ==> !occurs_at(text@, pattern@, earlier),
            None => !occurs(text@, pattern@),
        },
{
    let mut at: usize = 0;
    loop
        invariant
            at <= text.len(),
            forall|earlier: int| 0 <= earlier < at ==> !occurs_at(text@, pattern@, earlier),
        decreases text.len() - at,
    {
        if starts_at(text, pattern, at) {
            return Some(at);
        }
        if at == text.len() {
            return None;
        }
        at = at + 1;
    }
}

/// Whether `pattern` stands somewhere in `text`.
pub fn contains(text: &[char], pattern: &[char]) -> (found: bool)
    ensures
        found == occurs(text@, pattern@),
{
    find(text, pattern).is_some()
}

/// `text` with every occurrence of `pattern` replaced by `replacement`,
/// occurrences taken from left to right. An empty pattern replaces nothing.
pub fn replace(text: &[char], pattern: &[char], replacement: &[char]) -> (out: Vec<char>)
    ensures
        out@ == replace_all(text@, pattern@, replacement@),
{
    if pattern.len() == 0 {
        let mut out: Vec<char> = Vec::new();
        append_chars(&mut out, text);
        return out;
    }
    let mut out: Vec<char> = Vec::new();
    let mut at: usize = 0;
    assert(text@.skip(0) =~= text@);
    while at < text.len()
        invariant
            at <= text.len(),
            pattern@.len() > 0,
            replace_all(text@, pattern@, replacement@) == out@ + replace_all(
                text@.skip(at as int),
                pattern@,
                replacement@,
            ),
        decreases text.len() - at,
    {
        let ghost rest = text@.skip(at as int);
        proof {
            lemma_occurs_at_skip(text@, pattern@, at as int, 0);
        }
        if starts_at(text, pattern, at) {
            assert(rest.skip(pattern@.len() as int) =~= text@.skip(at + pattern@.len()));
            append_chars(&mut out, replacement);
            at = at + pattern.len();
        } else {
            assert(rest.skip(1) =~= text@.skip(at + 1));
            out.push(text[at]);
            at = at + 1;
        }
    }
    out
}

} // verus!
