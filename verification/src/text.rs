//! The mathematical model of a text: a sequence of characters, its lines the
//! spans between line feeds, and what it means for one text to occur in
//! another as a contiguous run.

use vstd::prelude::*;

verus! {

/// The character that ends a line. A carriage return before it is an ordinary
/// character of the line.
pub const LINE_FEED: char = '\n';

/// `needle` stands in `hay` at position `at`.
pub open spec fn occurs_at<A>(needle: Seq<A>, hay: Seq<A>, at: int) -> bool {
    &&& 0 <= at
    &&& at + needle.len() <= hay.len()
    &&& hay.subrange(at, at + needle.len()) == needle
}

/// `needle` is a contiguous run of `hay`.
pub open spec fn occurs_in<A>(needle: Seq<A>, hay: Seq<A>) -> bool {
    exists|at: int| occurs_at(needle, hay, at)
}

/// The number of characters that precede the first line feed of `text`; its
/// whole length when it holds none.
pub open spec fn first_break(text: Seq<char>) -> int
    decreases text.len(),
{
    if text.len() == 0 || text[0] == LINE_FEED {
        0
    } else {
        1 + first_break(text.drop_first())
    }
}

/// The text up to its first line feed.
pub open spec fn first_line(text: Seq<char>) -> Seq<char> {
    text.take(first_break(text))
}

/// The text behind its first line feed; empty when there is no line feed.
pub open spec fn after_first_line(text: Seq<char>) -> Seq<char> {
    let n = first_break(text);
    if 0 <= n < text.len() {
        text.skip(n + 1)
    } else {
        Seq::empty()
    }
}

/// The text cut at every line feed: the maximal spans that hold no line
/// feed, in order. There is always at least one, and a text that ends in a
/// line feed has an empty last one.
pub open spec fn segments(text: Seq<char>) -> Seq<Seq<char>>
    decreases text.len(),
{
    let n = first_break(text);
    if 0 <= n < text.len() {
        seq![text.take(n)] + segments(text.skip(n + 1))
    } else {
        seq![text]
    }
}

/// The lines of a text: its segments, but for the empty segment behind a
/// final line feed. The empty text has no line.
pub open spec fn lines(text: Seq<char>) -> Seq<Seq<char>> {
    let all = segments(text);
    if all.last().len() == 0 {
        all.drop_last()
    } else {
        all
    }
}

/// `first_break` is the position of the first line feed, or the length.
pub proof fn lemma_first_break(text: Seq<char>)
    ensures
        0 <= first_break(text) <= text.len(),
        first_break(text) < text.len() ==> text[first_break(text)] == LINE_FEED,
        forall|k: int| 0 <= k < first_break(text) ==> text[k] != LINE_FEED,
    decreases text.len(),
{
    if text.len() > 0 && text[0] != LINE_FEED {
        let rest = text.drop_first();
        lemma_first_break(rest);
        assert forall|k: int| 0 <= k < first_break(text) implies text[k] != LINE_FEED by {
            if k > 0 {
                assert(text[k] == rest[k - 1]);
            }
        }
    }
}

/// A position with no line feed before it, and a line feed or the end of the
/// text at it, is the first break.
pub proof fn lemma_first_break_is(text: Seq<char>, n: int)
    requires
        0 <= n <= text.len(),
        n < text.len() ==> text[n] == LINE_FEED,
        forall|k: int| 0 <= k < n ==> text[k] != LINE_FEED,
    ensures
        first_break(text) == n,
{
    lemma_first_break(text);
}

/// Cutting a text yields at least one segment.
pub proof fn lemma_segments_nonempty(text: Seq<char>)
    ensures
        segments(text).len() >= 1,
{
}

/// A text that is not empty has a first line, followed by the lines of what
/// stands behind it.
pub proof fn lemma_lines_unfold(text: Seq<char>)
    ensures
        text.len() == 0 ==> lines(text) == Seq::<Seq<char>>::empty(),
        text.len() > 0 ==> lines(text) == seq![first_line(text)] + lines(after_first_line(text)),
{
    lemma_first_break(text);
    let n = first_break(text);
    if text.len() == 0 {
        assert(lines(text) =~= Seq::<Seq<char>>::empty());
    } else if n < text.len() {
        // The last segment of the text is the last segment behind the break.
        let head = seq![text.take(n)];
        let behind = segments(text.skip(n + 1));
        lemma_segments_nonempty(text.skip(n + 1));
        assert(segments(text) == head + behind);
        assert((head + behind).drop_last() =~= head + behind.drop_last());
    } else {
        // The text is its only segment, and its only line.
        assert(text.take(n) =~= text);
        assert(lines(Seq::<char>::empty()) =~= Seq::<Seq<char>>::empty());
    }
}

/// No line holds a line feed.
pub proof fn lemma_lines_hold_no_feed(text: Seq<char>)
    ensures
        forall|k: int, i: int|
            0 <= k < lines(text).len() && 0 <= i < lines(text)[k].len() ==> #[trigger] lines(
                text,
            )[k][i] != LINE_FEED,
    decreases text.len(),
{
    lemma_lines_unfold(text);
    lemma_first_break(text);
    if text.len() > 0 {
        let rest = after_first_line(text);
        lemma_lines_hold_no_feed(rest);
        assert forall|k: int, i: int|
            0 <= k < lines(text).len() && 0 <= i < lines(text)[k].len() implies #[trigger] lines(
            text,
        )[k][i] != LINE_FEED by {
            if k > 0 {
                assert(lines(text)[k] == lines(rest)[k - 1]);
            }
        }
    }
}

/// What holds of every character of a text holds of every character of each
/// of its lines.
pub proof fn lemma_lines_characters(text: Seq<char>, holds: spec_fn(char) -> bool)
    requires
        forall|i: int| 0 <= i < text.len() ==> holds(#[trigger] text[i]),
    ensures
        forall|k: int, i: int|
            0 <= k < lines(text).len() && 0 <= i < lines(text)[k].len() ==> holds(
                #[trigger] lines(text)[k][i],
            ),
    decreases text.len(),
{
    lemma_lines_unfold(text);
    lemma_first_break(text);
    if text.len() > 0 {
        let rest = after_first_line(text);
        lemma_lines_characters(rest, holds);
        assert forall|k: int, i: int|
            0 <= k < lines(text).len() && 0 <= i < lines(text)[k].len() implies holds(
            #[trigger] lines(text)[k][i],
        ) by {
            if k > 0 {
                assert(lines(text)[k] == lines(rest)[k - 1]);
            }
        }
    }
}

} // verus!
