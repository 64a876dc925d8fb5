//! The lines of a text.
//!
//! A line ends at a line feed, or at a carriage return directly followed by a
//! line feed; neither belongs to the line. The last line may end with the
//! text instead: a text that ends in a line feed has the lines of the same text
//! without it. A carriage return that no line feed follows is part of its line.

use vstd::prelude::*;
use vstd::string::StringSliceAdditionalSpecFns;
use vstd::utf8::*;
use crate::join::{joined, lemma_joined_after_first};
use crate::encoding::{
    lemma_byte_absent, lemma_byte_present, lemma_encode_concat, lemma_encode_empty,
    lemma_encode_injective, lemma_encode_scalar_bytes,
};

verus! {

/// The number of characters of `text` before its first line feed, which is all
/// of them where it holds none.
pub open spec fn line_end(text: Seq<char>) -> nat
    decreases text.len(),
{
    if text.len() == 0 || text[0] == '\n' {
        0
    } else {
        1 + line_end(text.drop_first())
    }
}

/// `line` without the carriage return at its end, where it has one there.
pub open spec fn without_return(line: Seq<char>) -> Seq<char> {
    if line.len() > 0 && line.last() == '\r' {
        line.drop_last()
    } else {
        line
    }
}

/// The lines of `text`, in their order and without the characters that end
/// them.
pub open spec fn lines_of(text: Seq<char>) -> Seq<Seq<char>>
    decreases text.len(),
{
    let end = line_end(text);
    if text.len() == 0 {
        Seq::empty()
    } else if end >= text.len() {
        seq![text]
    } else {
        seq![without_return(text.take(end as int))] + lines_of(text.skip(end as int + 1))
    }
}

/// `line_end` is the place of the first line feed: no character before it is a
/// line feed, and where it lies inside the text, a line feed stands there.
pub proof fn lemma_line_end(text: Seq<char>)
    ensures
        line_end(text) <= text.len(),
        forall|i: int| 0 <= i < line_end(text) ==> text[i] != '\n',
        line_end(text) < text.len() ==> text[line_end(text) as int] == '\n',
    decreases text.len(),
{
    if text.len() != 0 && text[0] != '\n' {
        let rest = text.drop_first();
        lemma_line_end(rest);
        assert forall|i: int| 0 <= i < line_end(text) implies text[i] != '\n' by {
            if i > 0 {
                assert(text[i] == rest[i - 1]);
            }
        }
    }
}

/// A place with no line feed before it, which holds a line feed or is the end
/// of the text, is the place of the first line feed.
pub proof fn lemma_line_end_is(text: Seq<char>, at: int)
    requires
        0 <= at <= text.len(),
        forall|i: int| 0 <= i < at ==> text[i] != '\n',
        at < text.len() ==> text[at] == '\n',
    ensures
        line_end(text) == at,
    decreases text.len(),
{
    if at > 0 {
        let rest = text.drop_first();
        assert(forall|i: int| 0 <= i < at - 1 ==> rest[i] == text[i + 1]);
        lemma_line_end_is(rest, at - 1);
    }
}

/// No line holds a line feed.
pub proof fn lemma_lines_hold_no_line_feed(text: Seq<char>)
    ensures
        forall|k: int, i: int|
            0 <= k < lines_of(text).len() && 0 <= i < lines_of(text)[k].len() ==> lines_of(
                text,
            )[k][i] != '\n',
    decreases text.len(),
{
    let end = line_end(text) as int;
    lemma_line_end(text);
    if text.len() > 0 && end < text.len() {
        let rest = text.skip(end + 1);
        lemma_lines_hold_no_line_feed(rest);
        assert forall|k: int, i: int|
            0 <= k < lines_of(text).len() && 0 <= i < lines_of(text)[k].len() implies lines_of(
            text,
        )[k][i] != '\n' by {
            if k > 0 {
                assert(lines_of(text)[k] == lines_of(rest)[k - 1]);
            }
        }
    }
}

/// Joining the lines of a text gives the text back, where the text does not
/// end in a line feed and no carriage return in it stands before a line feed.
pub proof fn lemma_joined_lines_are_the_text(text: Seq<char>)
    requires
        text.len() > 0 ==> text.last() != '\n',
        forall|i: int| 0 < i < text.len() && #[trigger] text[i] == '\n' ==> text[i - 1] != '\r',
    ensures
        joined(lines_of(text)) == text,
    decreases text.len(),
{
    let end = line_end(text) as int;
    lemma_line_end(text);
    if text.len() > 0 && end < text.len() {
        let first = text.take(end);
        let rest = text.skip(end + 1);
        assert(without_return(first) == first);
        assert(forall|i: int| 0 <= i < rest.len() ==> rest[i] == text[end + 1 + i]);
        lemma_joined_lines_are_the_text(rest);
        lemma_joined_after_first(first, lines_of(rest));
    }
}

/// The lines of joined lines are those lines, where none of them holds a line
/// feed or ends in a carriage return and the last of them is not empty.
pub proof fn lemma_lines_of_joined(lines: Seq<Seq<char>>)
    requires
        forall|k: int, i: int|
            0 <= k < lines.len() && 0 <= i < lines[k].len() ==> lines[k][i] != '\n',
        forall|k: int| 0 <= k < lines.len() && lines[k].len() > 0 ==> lines[k].last() != '\r',
        lines.len() > 0 ==> lines.last().len() > 0,
    ensures
        lines_of(joined(lines)) == lines,
    decreases lines.len(),
{
    if lines.len() == 1 {
        lemma_line_end_is(lines[0], lines[0].len() as int);
        assert(lines == seq![lines[0]]);
    } else if lines.len() > 1 {
        let first = lines[0];
        let others = lines.drop_first();
        let text = joined(lines);
        assert(lines == seq![first] + others);
        lemma_joined_after_first(first, others);
        lemma_lines_of_joined(others);
        lemma_line_end_is(text, first.len() as int);
        assert(text.take(first.len() as int) == first);
        assert(text.skip(first.len() as int + 1) == joined(others));
    }
}

/// The byte that encodes a line feed.
pub const LINE_FEED: u8 = 0x0A;

/// The byte that encodes a carriage return.
pub const CARRIAGE_RETURN: u8 = 0x0D;

/// The first line feed among the bytes of a text stands where the first line
/// ends: before it lies the encoding of the first line with its carriage
/// return, if any, and after it the encoding of the rest.
proof fn lemma_line_end_in_bytes(text: Seq<char>, at: int)
    requires
        0 <= at <= encode_utf8(text).len(),
        forall|i: int| 0 <= i < at ==> encode_utf8(text)[i] != LINE_FEED,
        at < encode_utf8(text).len() ==> encode_utf8(text)[at] == LINE_FEED,
    ensures
        line_end(text) <= text.len(),
        at < encode_utf8(text).len() <==> line_end(text) < text.len(),
        encode_utf8(text.take(line_end(text) as int)) == encode_utf8(text).subrange(0, at),
        line_end(text) < text.len() ==> encode_utf8(text.skip(line_end(text) as int + 1))
            == encode_utf8(text).subrange(at + 1, encode_utf8(text).len() as int),
{
    let bytes = encode_utf8(text);
    let end = line_end(text) as int;
    lemma_line_end(text);
    if end < text.len() {
        lemma_byte_present(text, end);
        lemma_byte_absent(text.take(end), '\n');
        let before = encode_utf8(text.take(end));
        if at < before.len() {
            assert(bytes[at] == before[at]);
        }
    } else {
        lemma_byte_absent(text, '\n');
        assert(text.take(end) == text);
    }
}

/// A carriage return ends a line exactly where its byte ends the encoding of
/// the line, and without it the encoding is one byte shorter.
proof fn lemma_return_in_bytes(line: Seq<char>)
    requires
        line.len() > 0,
    ensures
        encode_utf8(line).len() > 0,
        encode_utf8(line).last() == CARRIAGE_RETURN <==> line.last() == '\r',
        line.last() == '\r' ==> encode_utf8(line.drop_last()) == encode_utf8(line).drop_last(),
{
    let last = line.last();
    let alone = seq![last];
    assert(line == line.drop_last() + alone);
    lemma_encode_concat(line.drop_last(), alone);
    assert(encode_utf8(alone) == encode_scalar(last as u32)) by {
        assert(encode_utf8(alone.drop_first()).len() == 0);
    }
    lemma_encode_scalar_bytes(last);
    if last != '\r' {
        char_u32_cast(last, last as u32);
    }
}

/// Finds the first line feed among `bytes`, or their end where there is none.
fn first_line_feed(bytes: &[u8]) -> (at: usize)
    ensures
        at <= bytes@.len(),
        forall|i: int| 0 <= i < at ==> bytes@[i] != LINE_FEED,
        at < bytes@.len() ==> bytes@[at as int] == LINE_FEED,
{
    let mut at: usize = 0;
    while at < bytes.len() && bytes[at] != LINE_FEED
        invariant
            at <= bytes@.len(),
            forall|i: int| 0 <= i < at ==> bytes@[i] != LINE_FEED,
        decreases bytes@.len() - at,
    {
        at += 1;
    }
    at
}

/// Takes the carriage return off the end of `line`, where it has one there.
fn drop_return<'a>(line: &'a str) -> (kept: &'a str)
    ensures
        kept@ == without_return(line@),
{
    let bytes = line.as_bytes();
    let count = bytes.len();
    proof {
        lemma_encode_empty(line@);
        if line@.len() > 0 {
            lemma_return_in_bytes(line@);
        }
    }
    if count > 0 && bytes[count - 1] == CARRIAGE_RETURN {
        proof {
            encode_utf8_valid_utf8(line@);
            is_char_boundary_iff_not_is_continuation_byte(bytes@, count - 1);
        }
        let (kept, _) = line.split_at(count - 1);
        proof {
            lemma_encode_injective(kept@, line@.drop_last());
        }
        kept
    } else {
        line
    }
}

/// Splits `text` into its lines: at each line feed, which is left out together
/// with a carriage return directly before it. What follows the last line
/// feed is a line of its own unless it is empty.
pub fn split_lines<'a>(text: &'a str) -> (lines: Vec<&'a str>)
    ensures
        lines.deep_view() == lines_of(text@),
{
    let mut lines: Vec<&'a str> = Vec::new();
    let mut rest: &'a str = text;
    loop
        invariant
            lines_of(text@) == lines.deep_view() + lines_of(rest@),
        decreases rest@.len(),
    {
        let bytes = rest.as_bytes();
        let at = first_line_feed(bytes);
        let ghost end = line_end(rest@) as int;
        proof {
            lemma_encode_empty(rest@);
            lemma_line_end_in_bytes(rest@, at as int);
        }
        if at == bytes.len() {
            if at > 0 {
                lines.push(rest);
            }
            return lines;
        }
        proof {
            encode_utf8_valid_utf8(rest@);
            is_char_boundary_iff_not_is_continuation_byte(bytes@, at as int);
        }
        let (head, tail) = rest.split_at(at);
        proof {
            lemma_encode_injective(head@, rest@.take(end));
            encode_utf8_valid_utf8(tail@);
            reveal_with_fuel(is_char_boundary, 2);
        }
        let (_, after) = tail.split_at(1);
        proof {
            assert(after.spec_bytes() == bytes@.subrange(at + 1, bytes@.len() as int));
            lemma_encode_injective(after@, rest@.skip(end + 1));
        }
        lines.push(drop_return(head));
        rest = after;
    }
}

} // verus!
