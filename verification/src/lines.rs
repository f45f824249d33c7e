//! The lines of a text, on its bytes.

use vstd::prelude::*;
use vstd::utf8::*;

verus! {

/// Offset of the first line feed at or after `from`, or the text's length.
pub open spec fn line_break(text: Seq<u8>, from: int) -> int
    decreases text.len() - from,
{
    if from < 0 || from >= text.len() {
        text.len() as int
    } else if text[from] == 10 {
        from
    } else {
        line_break(text, from + 1)
    }
}

/// Offset at which the line that starts at `from` ends: before its line
/// feed, and before a carriage return that stands right in front of it.
pub open spec fn line_end(text: Seq<u8>, from: int) -> int {
    let feed = line_break(text, from);
    if feed < text.len() && from < feed && text[feed - 1] == 13 {
        feed - 1
    } else {
        feed
    }
}

/// Offset at which the line after the one that starts at `from` starts.
pub open spec fn next_line(text: Seq<u8>, from: int) -> int {
    let feed = line_break(text, from);
    if feed < text.len() {
        feed + 1
    } else {
        feed
    }
}

/// The line feed is found at or after the start, within the text, and no
/// byte before it is one.
pub proof fn lemma_line_break(text: Seq<u8>, from: int)
    requires
        0 <= from <= text.len(),
    ensures
        from <= line_break(text, from) <= text.len(),
        line_break(text, from) < text.len() ==> text[line_break(text, from)] == 10,
        forall|k: int| from <= k < line_break(text, from) ==> #[trigger] text[k] != 10,
    decreases text.len() - from,
{
    if from < text.len() && text[from] != 10 {
        lemma_line_break(text, from + 1);
    }
}

/// The lines of the text from offset `from` on. Lines end at a line feed
/// or at a carriage return with a line feed; the text's last line needs
/// neither, and a text that ends with a line end has no empty line after it.
pub open spec fn lines_from(text: Seq<u8>, from: int) -> Seq<Seq<u8>>
    decreases text.len() - from,
    when 0 <= from
    via lines_from_decreases
{
    if from >= text.len() {
        Seq::empty()
    } else {
        seq![text.subrange(from, line_end(text, from))] + lines_from(text, next_line(text, from))
    }
}

#[via_fn]
proof fn lines_from_decreases(text: Seq<u8>, from: int) {
    if from < text.len() {
        lemma_line_break(text, from);
    }
}

/// The lines of a text.
pub open spec fn text_lines(text: Seq<u8>) -> Seq<Seq<u8>> {
    lines_from(text, 0)
}

/// Finds the first line feed at or after `from`.
pub fn find_line_break(text: &[u8], from: usize) -> (feed: usize)
    requires
        from <= text@.len(),
    ensures
        feed == line_break(text@, from as int),
        from <= feed <= text@.len(),
{
    let mut i: usize = from;
    proof {
        lemma_line_break(text@, from as int);
    }
    while i < text.len() && text[i] != 10
        invariant
            from <= i <= text@.len(),
            line_break(text@, from as int) == line_break(text@, i as int),
        decreases text@.len() - i,
    {
        i = i + 1;
    }
    proof {
        lemma_line_break(text@, i as int);
    }
    i
}

/// In valid UTF-8 a byte below 128 is a whole character: a character
/// starts at it and another, or the end, right after it.
pub proof fn lemma_boundaries_at_ascii(bytes: Seq<u8>, i: int)
    requires
        valid_utf8(bytes),
        0 <= i < bytes.len(),
        bytes[i] < 128,
    ensures
        is_char_boundary(bytes, i),
        is_char_boundary(bytes, i + 1),
{
    is_char_boundary_iff_not_is_continuation_byte(bytes, i);
    if i + 1 == bytes.len() {
        is_char_boundary_start_end_of_seq(bytes);
    } else {
        valid_utf8_split(bytes, i);
        let suffix = bytes.subrange(i, bytes.len() as int);
        assert(suffix[0] == bytes[i]);
        assert(length_of_first_scalar(suffix) == 1);
        let tail = pop_first_scalar(suffix);
        assert(valid_utf8(tail));
        assert(tail =~= bytes.subrange(i + 1, bytes.len() as int));
        is_char_boundary_start_end_of_seq(tail);
        is_char_boundary_iff_not_is_continuation_byte(tail, 0);
        assert(tail[0] == bytes[i + 1]);
        is_char_boundary_iff_not_is_continuation_byte(bytes, i + 1);
    }
}

/// A character boundary of a text is one of each prefix that reaches it.
pub proof fn lemma_boundary_in_prefix(bytes: Seq<u8>, at: int, end: int)
    requires
        valid_utf8(bytes),
        0 <= at <= end <= bytes.len(),
        is_char_boundary(bytes, at),
        is_char_boundary(bytes, end),
    ensures
        valid_utf8(bytes.subrange(0, end)),
        is_char_boundary(bytes.subrange(0, end), at),
        valid_utf8(bytes.subrange(at, end)),
{
    valid_utf8_split(bytes, end);
    let prefix = bytes.subrange(0, end);
    if at == end {
        is_char_boundary_start_end_of_seq(prefix);
    } else {
        is_char_boundary_iff_not_is_continuation_byte(bytes, at);
        assert(prefix[at] == bytes[at]);
        is_char_boundary_iff_not_is_continuation_byte(prefix, at);
    }
    valid_utf8_split(prefix, at);
    assert(prefix.subrange(at, prefix.len() as int) =~= bytes.subrange(at, end));
}

/// The part of a text between two character boundaries.
pub fn slice_text(text: &str, from: usize, to: usize) -> (part: &str)
    requires
        from <= to <= encode_utf8(text@).len(),
        is_char_boundary(encode_utf8(text@), from as int),
        is_char_boundary(encode_utf8(text@), to as int),
    ensures
        encode_utf8(part@) == encode_utf8(text@).subrange(from as int, to as int),
        part@ == decode_utf8(encode_utf8(text@).subrange(from as int, to as int)),
{
    proof {
        encode_utf8_valid_utf8(text@);
        lemma_boundary_in_prefix(encode_utf8(text@), from as int, to as int);
    }
    let (head, _) = text.split_at(to);
    let (_, part) = head.split_at(from);
    proof {
        let bytes = encode_utf8(text@);
        assert(encode_utf8(part@) =~= bytes.subrange(from as int, to as int));
        encode_utf8_decode_utf8(part@);
    }
    part
}

} // verus!
