//! Joining lines into one text.

use vstd::prelude::*;

verus! {

/// The text that `lines` make up: the lines in their order, with one line feed
/// between each two neighbours and none before the first or after the last.
pub open spec fn joined(lines: Seq<Seq<char>>) -> Seq<char>
    decreases lines.len(),
{
    if lines.len() == 0 {
        Seq::empty()
    } else if lines.len() == 1 {
        lines[0]
    } else {
        joined(lines.drop_last()).push('\n') + lines.last()
    }
}

/// Joins `lines` by line feeds.
pub fn join_lines(lines: &[&str]) -> (text: String)
    ensures
        text@ == joined(lines.deep_view()),
{
    let ghost all = lines.deep_view();
    let mut text = String::new();
    let mut done: usize = 0;
    while done < lines.len()
        invariant
            done <= lines.len(),
            all == lines.deep_view(),
            text@ == joined(all.take(done as int)),
        decreases lines.len() - done,
    {
        if done > 0 {
            text.append("\n");
        }
        text.append(lines[done]);
        proof {
            reveal_strlit("\n");
            assert(all.take(done + 1).drop_last() == all.take(done as int));
        }
        done += 1;
    }
    assert(all.take(done as int) == all);
    text
}

/// Joining a line with the lines after it puts the line first, then a line
/// feed, then the lines after it, joined.
pub proof fn lemma_joined_after_first(first: Seq<char>, others: Seq<Seq<char>>)
    requires
        others.len() > 0,
    ensures
        joined(seq![first] + others) == first.push('\n') + joined(others),
    decreases others.len(),
{
    let all = seq![first] + others;
    let feed = first.push('\n');
    if others.len() == 1 {
        assert(joined(all.drop_last()) == first);
    } else {
        let before = joined(others.drop_last());
        assert(all.drop_last() == seq![first] + others.drop_last());
        lemma_joined_after_first(first, others.drop_last());
        assert((feed + before).push('\n') + others.last() == feed + (before.push('\n')
            + others.last()));
    }
}

} // verus!
