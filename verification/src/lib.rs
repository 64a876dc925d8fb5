//! Selection of a contiguous range of lines from a text.
//!
//! A text is handled as the ordered sequence of its lines, counted from zero. A
//! selection names the first line it wants and, optionally, the last one; what it
//! yields is those lines, unchanged and in their order, joined by single line
//! feeds.
//!
//! - [`lines`] splits a text into its lines.
//! - [`range`] holds the model of a selection: which lines it holds, which
//!   selections are refused, and the lemmas about both.
//! - [`join`] joins lines into a text.
//! - [`select`](mod@select) holds the functions that select, from lines and
//!   from a text.
//! - [`encoding`] holds the facts about UTF-8 that the splitting rests on.

pub mod encoding;
pub mod join;
pub mod lines;
pub mod range;
pub mod select;

pub use crate::join::join_lines;
pub use crate::lines::split_lines;
pub use crate::select::{extract, filter, select, InvalidRange, INVALID_RANGE_MESSAGE};
