//! What a selection holds: the mathematical model that the contracts speak of,
//! and what follows from it.
//!
//! A selection is a start index and an optional end index, both counted from zero
//! and both inclusive. Without an end it runs through the last line.

use vstd::prelude::*;
use crate::join::joined;
use crate::lines::{lemma_joined_lines_are_the_text, lines_of};

verus! {

/// An optional end index as a mathematical bound.
pub open spec fn bound(end: Option<usize>) -> Option<nat> {
    match end {
        Some(e) => Some(e as nat),
        None => None,
    }
}

/// Whether a selection on `count` lines is inverted: its start names a line that
/// exists, and its end lies before that line. An inverted selection is refused.
/// A start at or past `count` selects nothing, whatever the end, and is not
/// inverted.
pub open spec fn inverted(count: nat, start: nat, end: Option<nat>) -> bool {
    &&& start < count
    &&& end matches Some(e)
    &&& e < start
}

/// The index of the last line selected by an end index `end` among `count`
/// lines: `end` itself, or the last index there is when `end` lies past it.
pub open spec fn clamped(count: nat, end: nat) -> int {
    if end < count {
        end as int
    } else {
        count - 1
    }
}

/// The lines that a selection holds. It is meant for selections that are not
/// inverted.
pub open spec fn selected_lines<T>(lines: Seq<T>, start: nat, end: Option<nat>) -> Seq<T> {
    if start >= lines.len() {
        Seq::empty()
    } else {
        match end {
            None => lines.subrange(start as int, lines.len() as int),
            Some(e) => lines.subrange(start as int, clamped(lines.len(), e) + 1),
        }
    }
}

/// The text that a selection yields: its lines, joined by line feeds.
pub open spec fn selected_text(lines: Seq<Seq<char>>, start: nat, end: Option<nat>) -> Seq<char> {
    joined(selected_lines(lines, start, end))
}

/// What is selected is a contiguous run of the lines, in their order and
/// unchanged: the selected line at place `j` is the line at `start + j`. The run
/// is empty where `start` lies past the last line, and otherwise reaches from
/// `start` through the end index, or through the last line where the end index
/// is absent or lies past it.
pub proof fn lemma_selection_is_contiguous<T>(lines: Seq<T>, start: nat, end: Option<nat>)
    requires
        !inverted(lines.len(), start, end),
    ensures
        start >= lines.len() ==> selected_lines(lines, start, end).len() == 0,
        start < lines.len() ==> selected_lines(lines, start, end).len() == (match end {
            None => lines.len() - start,
            Some(e) => clamped(lines.len(), e) + 1 - start,
        }),
        start < lines.len() ==> 0 < selected_lines(lines, start, end).len() <= lines.len() - start,
        forall|j: int|
            0 <= j < selected_lines(lines, start, end).len() ==> selected_lines(
                lines,
                start,
                end,
            )[j] == lines[start + j],
{
}

/// A selection whose start and end both name lines, the end not before the
/// start, yields exactly the lines from `start` through `end`, joined by line
/// feeds.
pub proof fn lemma_bounded_selection(lines: Seq<Seq<char>>, start: nat, end: nat)
    requires
        start <= end < lines.len(),
    ensures
        !inverted(lines.len(), start, Some(end)),
        selected_text(lines, start, Some(end)) == joined(
            lines.subrange(start as int, end as int + 1),
        ),
{
}

/// A selection without an end, whose start names a line, yields exactly the
/// lines from `start` through the last one, joined by line feeds.
pub proof fn lemma_open_selection(lines: Seq<Seq<char>>, start: nat)
    requires
        start < lines.len(),
    ensures
        !inverted(lines.len(), start, None),
        selected_text(lines, start, None) == joined(
            lines.subrange(start as int, lines.len() as int),
        ),
{
}

/// A selection whose start lies past the last line is accepted and yields the
/// empty text, whatever its end: absent, large, or before the start.
pub proof fn lemma_start_past_last_line(lines: Seq<Seq<char>>, start: nat, end: Option<nat>)
    requires
        start >= lines.len(),
    ensures
        !inverted(lines.len(), start, end),
        selected_text(lines, start, end) == Seq::<char>::empty(),
{
}

/// An end past the last line saturates: where there are lines and the end is
/// not before the start, it selects what the index of the last line selects.
pub proof fn lemma_end_saturates(lines: Seq<Seq<char>>, start: nat, end: nat)
    requires
        lines.len() > 0,
        end >= lines.len(),
        end >= start,
    ensures
        !inverted(lines.len(), start, Some(end)),
        !inverted(lines.len(), start, Some((lines.len() - 1) as nat)),
        selected_text(lines, start, Some(end)) == selected_text(
            lines,
            start,
            Some((lines.len() - 1) as nat),
        ),
{
}

/// An end at or past the last line, and not before the start, selects what an
/// absent end selects.
pub proof fn lemma_end_reaching_last_line(lines: Seq<Seq<char>>, start: nat, end: nat)
    requires
        end + 1 >= lines.len(),
        end >= start,
    ensures
        !inverted(lines.len(), start, Some(end)),
        selected_text(lines, start, Some(end)) == selected_text(lines, start, None),
{
}

/// A selection that starts and ends at the same line yields that line alone,
/// with no line feed before or after it.
pub proof fn lemma_single_line(lines: Seq<Seq<char>>, at: nat)
    requires
        at < lines.len(),
    ensures
        !inverted(lines.len(), at, Some(at)),
        selected_text(lines, at, Some(at)) == lines[at as int],
{
}

/// A selection from the first line, without an end or through the last line,
/// yields the whole text: all the lines joined by line feeds.
pub proof fn lemma_whole_text(lines: Seq<Seq<char>>)
    ensures
        selected_text(lines, 0, None) == joined(lines),
        lines.len() > 0 ==> selected_text(lines, 0, Some((lines.len() - 1) as nat)) == joined(
            lines,
        ),
{
    assert(lines.subrange(0, lines.len() as int) == lines);
}

/// Selecting from the first line of a text, without an end, gives the text
/// back, where the text does not end in a line feed and no carriage return in it
/// stands before a line feed.
pub proof fn lemma_whole_selection_is_the_text(text: Seq<char>)
    requires
        text.len() > 0 ==> text.last() != '\n',
        forall|i: int| 0 < i < text.len() && #[trigger] text[i] == '\n' ==> text[i - 1] != '\r',
    ensures
        selected_text(lines_of(text), 0, None) == text,
{
    lemma_whole_text(lines_of(text));
    lemma_joined_lines_are_the_text(text);
}

/// Every end before a start that names a line makes the selection inverted,
/// and so refused.
pub proof fn lemma_end_before_start(count: nat, start: nat, end: nat)
    requires
        end < start < count,
    ensures
        inverted(count, start, Some(end)),
{
}

} // verus!
