//! When the order of the entries does not matter to the substitution.
//!
//! The entries of an argument map are substituted one after the other, so in
//! general their order shows in the result: a value may bring in the marker of
//! another key, and a key that begins another key takes its markers. The laws
//! here say under which conditions two neighbouring entries can change places.

use crate::args::Entries;
use crate::substitute::{lemma_substitute_one, marker, substitute};
use crate::text::{
    lemma_occurs_at_skip, lemma_replace_all_skips, lemma_replace_all_untouched_start, occurs,
    occurs_at, replace_all, share_no_char,
};
use vstd::prelude::*;

verus! {

/// Two keys whose markers cannot overlap in any text: neither key holds a
/// `$`, and neither is the beginning of the other.
pub open spec fn keys_apart(first: Seq<char>, second: Seq<char>) -> bool {
    &&& !first.contains('$')
    &&& !second.contains('$')
    &&& !first.is_prefix_of(second)
    &&& !second.is_prefix_of(first)
}

/// Two entries that keep out of each other's way: their keys are apart, and
/// the value of each is not empty and shares no character with the marker of
/// the other.
pub open spec fn independent(first: (Seq<char>, Seq<char>), second: (Seq<char>, Seq<char>)) -> bool {
    &&& keys_apart(first.0, second.0)
    &&& first.1.len() > 0
    &&& second.1.len() > 0
    &&& share_no_char(first.1, marker(second.0))
    &&& share_no_char(second.1, marker(first.0))
}

/// The entries with those at `at` and behind it in each other's place.
pub open spec fn exchanged(entries: Entries, at: int) -> Entries {
    entries.update(at, entries[at + 1]).update(at + 1, entries[at])
}

/// Where the marker of a key stands at the start of a text, no marker of a
/// key apart from it begins inside it.
proof fn lemma_marker_clears(text: Seq<char>, key: Seq<char>, other: Seq<char>)
    requires
        keys_apart(key, other),
        occurs_at(text, marker(key), 0),
    ensures
        forall|at: int| 0 <= at < marker(key).len() ==> !occurs_at(text, marker(other), at),
{
    let here = marker(key);
    let there = marker(other);
    assert forall|at: int| 0 <= at < here.len() implies !occurs_at(text, there, at) by {
        if occurs_at(text, there, at) {
            assert(text.subrange(at, at + there.len())[0] == there[0]);
            if at == 0 {
                if key.len() <= other.len() {
                    assert forall|i: int| 0 <= i < key.len() implies key[i] == other.subrange(
                        0,
                        key.len() as int,
                    )[i] by {
                        assert(text.subrange(0, here.len() as int)[3 + i] == here[3 + i]);
                        assert(text.subrange(0, there.len() as int)[3 + i] == there[3 + i]);
                    }
                    assert(key =~= other.subrange(0, key.len() as int));
                } else {
                    assert forall|i: int| 0 <= i < other.len() implies other[i] == key.subrange(
                        0,
                        other.len() as int,
                    )[i] by {
                        assert(text.subrange(0, here.len() as int)[3 + i] == here[3 + i]);
                        assert(text.subrange(0, there.len() as int)[3 + i] == there[3 + i]);
                    }
                    assert(other =~= key.subrange(0, other.len() as int));
                }
            } else {
                assert(text.subrange(0, here.len() as int)[at] == here[at]);
                if at >= 3 {
                    assert(key[at - 3] == '$');
                }
            }
        }
    }
}

/// Replacing the markers of one key neither brings in nor takes away a
/// marker of another, where the keys are apart and the value is not empty and
/// shares no character with the other marker.
pub proof fn lemma_replace_keeps_other_marker(
    text: Seq<char>,
    key: Seq<char>,
    value: Seq<char>,
    other: Seq<char>,
)
    requires
        keys_apart(key, other),
        value.len() > 0,
        share_no_char(value, marker(other)),
    ensures
        occurs(replace_all(text, marker(key), value), marker(other)) <==> occurs(
            text,
            marker(other),
        ),
    decreases text.len(),
{
    let here = marker(key);
    let there = marker(other);
    let replaced = replace_all(text, here, value);
    if text.len() == 0 {
    } else if occurs_at(text, here, 0) {
        let rest = text.skip(here.len() as int);
        let rest_replaced = replace_all(rest, here, value);
        lemma_replace_keeps_other_marker(rest, key, value, other);
        lemma_marker_clears(text, key, other);
        if occurs(replaced, there) {
            let at = choose|at: int| occurs_at(replaced, there, at);
            if at < value.len() {
                assert(replaced.subrange(at, at + there.len())[0] == there[0]);
                assert(replaced[at] == value[at]);
            }
            assert(rest_replaced.subrange(at - value.len(), at - value.len() + there.len())
                =~= replaced.subrange(at, at + there.len()));
            assert(occurs_at(rest_replaced, there, at - value.len()));
        }
        if occurs(rest_replaced, there) {
            let at = choose|at: int| occurs_at(rest_replaced, there, at);
            assert(replaced.subrange(at + value.len(), at + value.len() + there.len())
                =~= rest_replaced.subrange(at, at + there.len()));
            assert(occurs_at(replaced, there, at + value.len()));
        }
        if occurs(text, there) {
            let at = choose|at: int| occurs_at(text, there, at);
            lemma_occurs_at_skip(text, there, here.len() as int, at - here.len());
            assert(occurs_at(rest, there, at - here.len()));
        }
        if occurs(rest, there) {
            let at = choose|at: int| occurs_at(rest, there, at);
            lemma_occurs_at_skip(text, there, here.len() as int, at);
            assert(occurs_at(text, there, here.len() + at));
        }
    } else {
        let rest = text.skip(1);
        let rest_replaced = replace_all(rest, here, value);
        lemma_replace_keeps_other_marker(rest, key, value, other);
        assert(replaced.skip(1) =~= rest_replaced);
        if occurs_at(replaced, there, 0) {
            assert forall|i: int| 0 <= i < there.len() implies !value.contains(
                #[trigger] replaced[i],
            ) by {
                assert(replaced.subrange(0, there.len() as int)[i] == there[i]);
            }
            lemma_replace_all_untouched_start(text, here, value, there.len() as int);
            assert(text.subrange(0, there.len() as int) =~= replaced.subrange(
                0,
                there.len() as int,
            ));
        }
        if occurs_at(text, there, 0) {
            lemma_marker_clears(text, other, key);
            lemma_replace_all_skips(text, here, value, there.len() as int);
            assert(replaced.subrange(0, there.len() as int) =~= text.subrange(
                0,
                there.len() as int,
            ));
        }
        if occurs(replaced, there) {
            let at = choose|at: int| occurs_at(replaced, there, at);
            if at > 0 {
                lemma_occurs_at_skip(replaced, there, 1, at - 1);
                assert(occurs_at(rest_replaced, there, at - 1));
            }
        }
        if occurs(rest_replaced, there) {
            let at = choose|at: int| occurs_at(rest_replaced, there, at);
            lemma_occurs_at_skip(replaced, there, 1, at);
            assert(occurs_at(replaced, there, 1 + at));
        }
        if occurs(text, there) {
            let at = choose|at: int| occurs_at(text, there, at);
            if at > 0 {
                lemma_occurs_at_skip(text, there, 1, at - 1);
                assert(occurs_at(rest, there, at - 1));
            }
        }
        if occurs(rest, there) {
            let at = choose|at: int| occurs_at(rest, there, at);
            lemma_occurs_at_skip(text, there, 1, at);
            assert(occurs_at(text, there, 1 + at));
        }
    }
}

/// Behind a start that holds no first character of the pattern, the replacing
/// leaves the start as it is.
proof fn lemma_replace_all_behind(
    start: Seq<char>,
    rest: Seq<char>,
    pattern: Seq<char>,
    replacement: Seq<char>,
)
    requires
        pattern.len() > 0,
        !start.contains(pattern[0]),
    ensures
        replace_all(start + rest, pattern, replacement) == start + replace_all(
            rest,
            pattern,
            replacement,
        ),
{
    let text = start + rest;
    assert forall|at: int| 0 <= at < start.len() implies !occurs_at(text, pattern, at) by {
        if occurs_at(text, pattern, at) {
            assert(text.subrange(at, at + pattern.len())[0] == pattern[0]);
            assert(start[at] == pattern[0]);
        }
    }
    lemma_replace_all_skips(text, pattern, replacement, start.len() as int);
    assert(text.take(start.len() as int) =~= start);
    assert(text.skip(start.len() as int) =~= rest);
}

/// The replacing of the markers of two independent entries gives the same
/// text in either order.
pub proof fn lemma_replace_commutes(
    text: Seq<char>,
    first: (Seq<char>, Seq<char>),
    second: (Seq<char>, Seq<char>),
)
    requires
        independent(first, second),
    ensures
        replace_all(replace_all(text, marker(first.0), first.1), marker(second.0), second.1)
            == replace_all(
            replace_all(text, marker(second.0), second.1),
            marker(first.0),
            first.1,
        ),
    decreases text.len(),
{
    let (m1, v1) = (marker(first.0), first.1);
    let (m2, v2) = (marker(second.0), second.1);
    let one = replace_all(text, m1, v1);
    let two = replace_all(text, m2, v2);
    if text.len() == 0 {
    } else if occurs_at(text, m1, 0) {
        let rest = text.skip(m1.len() as int);
        lemma_replace_commutes(rest, first, second);
        // one way: the value of the first entry stays in front
        assert(!v1.contains(m2[0]));
        lemma_replace_all_behind(v1, replace_all(rest, m1, v1), m2, v2);
        // other way: the marker of the first entry is passed over, then replaced
        lemma_marker_clears(text, first.0, second.0);
        lemma_replace_all_skips(text, m2, v2, m1.len() as int);
        let passed = replace_all(rest, m2, v2);
        assert(text.take(m1.len() as int) =~= m1);
        assert(occurs_at(m1 + passed, m1, 0)) by {
            assert((m1 + passed).subrange(0, m1.len() as int) =~= m1);
        }
        assert((m1 + passed).skip(m1.len() as int) =~= passed);
    } else if occurs_at(text, m2, 0) {
        let rest = text.skip(m2.len() as int);
        lemma_replace_commutes(rest, first, second);
        assert(!v2.contains(m1[0]));
        lemma_replace_all_behind(v2, replace_all(rest, m2, v2), m1, v1);
        lemma_marker_clears(text, second.0, first.0);
        lemma_replace_all_skips(text, m1, v1, m2.len() as int);
        let passed = replace_all(rest, m1, v1);
        assert(text.take(m2.len() as int) =~= m2);
        assert(occurs_at(m2 + passed, m2, 0)) by {
            assert((m2 + passed).subrange(0, m2.len() as int) =~= m2);
        }
        assert((m2 + passed).skip(m2.len() as int) =~= passed);
    } else {
        let rest = text.skip(1);
        lemma_replace_commutes(rest, first, second);
        assert(one.skip(1) =~= replace_all(rest, m1, v1));
        assert(two.skip(1) =~= replace_all(rest, m2, v2));
        if occurs_at(one, m2, 0) {
            assert forall|i: int| 0 <= i < m2.len() implies !v1.contains(#[trigger] one[i]) by {
                assert(one.subrange(0, m2.len() as int)[i] == m2[i]);
            }
            lemma_replace_all_untouched_start(text, m1, v1, m2.len() as int);
            assert(text.subrange(0, m2.len() as int) =~= one.subrange(0, m2.len() as int));
        }
        if occurs_at(two, m1, 0) {
            assert forall|i: int| 0 <= i < m1.len() implies !v2.contains(#[trigger] two[i]) by {
                assert(two.subrange(0, m1.len() as int)[i] == m1[i]);
            }
            lemma_replace_all_untouched_start(text, m2, v2, m1.len() as int);
            assert(text.subrange(0, m1.len() as int) =~= two.subrange(0, m1.len() as int));
        }
    }
}

/// The substitution of a list of entries is that of its front part followed
/// by that of its back part.
pub proof fn lemma_substitute_in_parts(text: Seq<char>, front: Entries, back: Entries)
    ensures
        substitute(text, front + back) == match substitute(text, front) {
            Some(so_far) => substitute(so_far, back),
            None => None,
        },
    decreases back.len(),
{
    if back.len() == 0 {
        assert(front + back =~= front);
    } else {
        lemma_substitute_in_parts(text, front, back.drop_last());
        assert((front + back).drop_last() =~= front + back.drop_last());
        assert((front + back).last() == back.last());
    }
}

/// Two independent entries give the same result in either order.
pub proof fn lemma_substitute_two(
    text: Seq<char>,
    first: (Seq<char>, Seq<char>),
    second: (Seq<char>, Seq<char>),
)
    requires
        independent(first, second),
    ensures
        substitute(text, seq![first, second]) == substitute(text, seq![second, first]),
{
    let one_way = seq![first, second];
    let other_way = seq![second, first];
    assert(one_way.drop_last() =~= seq![first]);
    assert(other_way.drop_last() =~= seq![second]);
    lemma_substitute_one(text, first.0, first.1);
    lemma_substitute_one(text, second.0, second.1);
    lemma_replace_keeps_other_marker(text, first.0, first.1, second.0);
    lemma_replace_keeps_other_marker(text, second.0, second.1, first.0);
    lemma_replace_commutes(text, first, second);
}

/// Two neighbouring entries that are independent can change places: the
/// result of the substitution stays the same.
pub proof fn lemma_substitute_exchange(text: Seq<char>, entries: Entries, at: int)
    requires
        0 <= at,
        at + 1 < entries.len(),
        independent(entries[at], entries[at + 1]),
    ensures
        substitute(text, exchanged(entries, at)) == substitute(text, entries),
{
    let front = entries.take(at);
    let back = entries.skip(at + 2);
    let pair = seq![entries[at], entries[at + 1]];
    let turned = seq![entries[at + 1], entries[at]];
    assert(entries =~= front + pair + back);
    assert(exchanged(entries, at) =~= front + turned + back);
    lemma_substitute_in_parts(text, front + pair, back);
    lemma_substitute_in_parts(text, front + turned, back);
    lemma_substitute_in_parts(text, front, pair);
    lemma_substitute_in_parts(text, front, turned);
    match substitute(text, front) {
        Some(so_far) => {
            lemma_substitute_two(so_far, entries[at], entries[at + 1]);
        },
        None => {},
    }
}

} // verus!
