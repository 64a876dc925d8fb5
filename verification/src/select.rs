//! Selecting lines.

use vstd::prelude::*;
use vstd::slice::slice_subrange;
use crate::join::join_lines;
use crate::lines::{lines_of, split_lines};
use crate::range::{bound, inverted, selected_text};

verus! {

/// The refusal of an inverted selection: `end` lies before `start`.
#[derive(Debug, Clone, Copy, PartialEq, Eq, Structural)]
pub struct InvalidRange {
    pub start: usize,
    pub end: usize,
}

/// The words in which an inverted selection is refused.
pub const INVALID_RANGE_MESSAGE: &'static str =
    "End index must be greater than or equal to start index.";

impl InvalidRange {
    /// Says in words what is wrong with the selection.
    pub fn message(&self) -> (words: String)
        ensures
            words@ == INVALID_RANGE_MESSAGE@,
    {
        INVALID_RANGE_MESSAGE.to_string()
    }
}

/// Returns the lines from `start` through `end`, or through the last line where
/// there is no `end`, joined by line feeds. A start past the last line selects
/// nothing; an end past the last line stands for the last line.
///
/// The selection must not be inverted. [`select`] takes every selection and
/// refuses the inverted ones.
pub fn filter(start: usize, end: Option<usize>, lines: Vec<&str>) -> (text: String)
    requires
        !inverted(lines@.len(), start as nat, bound(end)),
    ensures
        text@ == selected_text(lines.deep_view(), start as nat, bound(end)),
{
    let count = lines.len();
    if start >= count {
        return String::new();
    }
    let stop: usize = match end {
        None => count,
        Some(e) => if e < count { e + 1 } else { count },
    };
    let chosen = slice_subrange(lines.as_slice(), start, stop);
    assert(chosen.deep_view() == lines.deep_view().subrange(start as int, stop as int));
    join_lines(chosen)
}

/// Selects as [`filter`] does, and refuses an inverted selection with the two
/// indices it was given. Every other selection succeeds.
pub fn select(lines: Vec<&str>, start: usize, end: Option<usize>) -> (res: Result<String, InvalidRange>)
    ensures
        res is Err <==> inverted(lines@.len(), start as nat, bound(end)),
        res matches Ok(text) ==> text@ == selected_text(
            lines.deep_view(),
            start as nat,
            bound(end),
        ),
        res matches Err(refusal) ==> refusal.start == start && end == Some(refusal.end),
{
    match end {
        Some(e) if start < lines.len() && e < start => Err(InvalidRange { start, end: e }),
        _ => Ok(filter(start, end, lines)),
    }
}

/// Selects from the lines of `text`, as [`select`] does from lines.
pub fn extract(text: &str, start: usize, end: Option<usize>) -> (res: Result<String, InvalidRange>)
    ensures
        res is Err <==> inverted(lines_of(text@).len(), start as nat, bound(end)),
        res matches Ok(chosen) ==> chosen@ == selected_text(
            lines_of(text@),
            start as nat,
            bound(end),
        ),
        res matches Err(refusal) ==> refusal.start == start && end == Some(refusal.end),
{
    select(split_lines(text), start, end)
}

} // verus!
