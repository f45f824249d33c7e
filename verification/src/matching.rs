//! Substring search that ignores letter case: the first range of a line
//! whose lower-case form is the lower-case form of the query.

use vstd::prelude::*;
use vstd::utf8::*;
use crate::lines::slice_text;
use crate::text::{byte_len, bytes_of, text_eq};

verus! {

/// The lower-case form of a text, as the standard library gives it.
pub uninterp spec fn lowercase_of(text: Seq<char>) -> Seq<char>;

/// Calls `str::to_lowercase`, which returns the lower-case equivalent of
/// the text as a new string. The contract only names the result.
#[verifier::external_body]
pub(crate) fn to_lowercase(text: &str) -> (lower: String)
    ensures
        lower@ == lowercase_of(text@),
{
    text.to_lowercase()
}

/// The bytes of the line from `from` up to `to` are whole characters, at
/// least one, and the lower-case form of that text is `target`.
pub open spec fn lowers_to(line: Seq<u8>, from: int, to: int, target: Seq<char>) -> bool {
    &&& 0 <= from < to <= line.len()
    &&& is_char_boundary(line, from)
    &&& is_char_boundary(line, to)
    &&& lowercase_of(decode_utf8(line.subrange(from, to))) == target
}

/// A range of the line that starts at `from` has the lower-case form `target`.
pub open spec fn starts_match(line: Seq<u8>, target: Seq<char>, from: int) -> bool {
    exists|to: int| lowers_to(line, from, to, target)
}

/// `from` is the first offset at which such a range starts.
pub open spec fn is_first_start(line: Seq<u8>, target: Seq<char>, from: int) -> bool {
    &&& starts_match(line, target, from)
    &&& forall|earlier: int| earlier < from ==> !starts_match(line, target, earlier)
}

/// `to` is the first offset at which such a range that starts at `from` ends.
pub open spec fn is_first_end(line: Seq<u8>, target: Seq<char>, from: int, to: int) -> bool {
    &&& lowers_to(line, from, to, target)
    &&& forall|earlier: int| earlier < to ==> !lowers_to(line, from, earlier, target)
}

/// The first range of the line whose lower-case form is `target`: the one
/// that starts first, and of those that start there the one that ends
/// first. `None` where the line has no such range.
pub open spec fn first_match(line: Seq<u8>, target: Seq<char>) -> Option<(int, int)> {
    if exists|from: int| starts_match(line, target, from) {
        let from = choose|from: int| is_first_start(line, target, from);
        let to = choose|to: int| is_first_end(line, target, from, to);
        Some((from, to))
    } else {
        None
    }
}

/// A line has one first range only, and `first_match` names it.
pub proof fn lemma_first_match(line: Seq<u8>, target: Seq<char>, from: int, to: int)
    requires
        is_first_start(line, target, from),
        is_first_end(line, target, from, to),
    ensures
        first_match(line, target) == Some((from, to)),
{
    let start = choose|start: int| is_first_start(line, target, start);
    assert(is_first_start(line, target, start));
    if start < from {
        assert(!starts_match(line, target, start));
    }
    if from < start {
        assert(!starts_match(line, target, from));
    }
    let end = choose|end: int| is_first_end(line, target, from, end);
    assert(is_first_end(line, target, from, end));
    if end < to {
        assert(!lowers_to(line, from, end, target));
    }
    if to < end {
        assert(!lowers_to(line, from, to, target));
    }
}

/// Where a range that starts at `from` has the lower-case form `target`,
/// one of them ends first.
proof fn lemma_least_end(line: Seq<u8>, target: Seq<char>, from: int, to: int)
    requires
        lowers_to(line, from, to, target),
    ensures
        exists|first: int| is_first_end(line, target, from, first),
    decreases to,
{
    if exists|earlier: int| earlier < to && lowers_to(line, from, earlier, target) {
        let earlier = choose|earlier: int| earlier < to && lowers_to(line, from, earlier, target);
        lemma_least_end(line, target, from, earlier);
    } else {
        assert(is_first_end(line, target, from, to));
    }
}

/// Where a range of the line has the lower-case form `target` at all, one
/// of them starts first.
proof fn lemma_least_start(line: Seq<u8>, target: Seq<char>, from: int)
    requires
        starts_match(line, target, from),
    ensures
        exists|first: int| is_first_start(line, target, first),
    decreases from,
{
    let to = choose|to: int| lowers_to(line, from, to, target);
    if exists|earlier: int| earlier < from && starts_match(line, target, earlier) {
        let earlier = choose|earlier: int| earlier < from && starts_match(line, target, earlier);
        let end = choose|end: int| lowers_to(line, earlier, end, target);
        lemma_least_start(line, target, earlier);
    } else {
        assert(is_first_start(line, target, from));
    }
}

/// What `first_match` names is a range of the line with the lower-case
/// form `target`, and no such range starts before it or, from the same
/// start, ends before it.
pub proof fn lemma_first_match_is_first(line: Seq<u8>, target: Seq<char>)
    ensures
        match first_match(line, target) {
            Some((from, to)) => is_first_start(line, target, from) && is_first_end(
                line,
                target,
                from,
                to,
            ),
            None => forall|from: int, to: int| !lowers_to(line, from, to, target),
        },
{
    if exists|from: int| starts_match(line, target, from) {
        let somewhere = choose|from: int| starts_match(line, target, from);
        lemma_least_start(line, target, somewhere);
        let from = choose|from: int| is_first_start(line, target, from);
        let end = choose|end: int| lowers_to(line, from, end, target);
        lemma_least_end(line, target, from, end);
    } else {
        assert forall|from: int, to: int| !lowers_to(line, from, to, target) by {
            if lowers_to(line, from, to, target) {
                assert(starts_match(line, target, from));
            }
        }
    }
}

/// Finds the first range of the line whose lower-case form is `target`.
/// Nothing but its result is known of the lowering, so it is asked of
/// each range between two characters in turn.
pub fn find_match(line: &str, target: &str) -> (found: Option<(usize, usize)>)
    ensures
        match found {
            Some((from, to)) => first_match(bytes_of(line@), target@) == Some(
                (from as int, to as int),
            ),
            None => first_match(bytes_of(line@), target@) is None,
        },
        found matches Some((from, to)) ==> lowers_to(
            bytes_of(line@),
            from as int,
            to as int,
            target@,
        ),
{
    let total = byte_len(line);
    let ghost bytes = bytes_of(line@);
    let mut from: usize = 0;
    while from < total
        invariant
            bytes == bytes_of(line@),
            total == bytes.len(),
            from <= total,
            forall|earlier: int| earlier < from ==> !starts_match(bytes, target@, earlier),
        decreases total - from,
    {
        if line.is_char_boundary(from) {
            let mut to: usize = from + 1;
            loop
                invariant
                    bytes == bytes_of(line@),
                    total == bytes.len(),
                    from < to <= total,
                    is_char_boundary(bytes, from as int),
                    forall|earlier: int| earlier < from ==> !starts_match(bytes, target@, earlier),
                    forall|earlier: int| earlier < to ==> !lowers_to(
                        bytes,
                        from as int,
                        earlier,
                        target@,
                    ),
                ensures
                    forall|end: int| !lowers_to(bytes, from as int, end, target@),
                decreases total - to,
            {
                if line.is_char_boundary(to) {
                    let part = slice_text(line, from, to);
                    let lower = to_lowercase(part);
                    if text_eq(lower.as_str(), target) {
                        proof {
                            assert(lowers_to(bytes, from as int, to as int, target@));
                            assert(starts_match(bytes, target@, from as int));
                            lemma_first_match(bytes, target@, from as int, to as int);
                        }
                        return Some((from, to));
                    }
                }
                if to == total {
                    break;
                }
                to = to + 1;
            }
        }
        from = from + 1;
    }
    proof {
        assert forall|start: int| !starts_match(bytes, target@, start) by {
            if starts_match(bytes, target@, start) {
                let end = choose|end: int| lowers_to(bytes, start, end, target@);
                assert(start < total);
            }
        }
    }
    None
}

} // verus!
