//! Lowercasing. The lowercase form of a single character comes from the
//! standard library's Unicode tables; a text is lowered one character at a
//! time, so the form of a character never depends on its neighbours.

use vstd::prelude::*;
use vstd::seq_lib::lemma_flatten_concat;
use vstd::string::StringExecFns;
use crate::scan::{contains, str_eq};
use crate::text::{
    LINE_FEED, after_first_line, first_break, first_line, lemma_first_break,
    lemma_first_break_is, lemma_lines_unfold, lines, occurs_at, occurs_in,
};

verus! {

/// The lowercase form of one character: what `char::to_lowercase` yields for
/// it, in order. The mapping is Unicode's and is not written out here.
pub uninterp spec fn char_lowercase(c: char) -> Seq<char>;

/// The lowercase form of a text: the lowercase forms of its characters, one
/// after the other.
pub open spec fn lowercase(text: Seq<char>) -> Seq<char> {
    text.flat_map(|c: char| char_lowercase(c))
}

/// Lowercasing distributes over concatenation.
pub proof fn lemma_lowercase_concat(a: Seq<char>, b: Seq<char>)
    ensures
        lowercase(a + b) == lowercase(a) + lowercase(b),
{
    let lower = |c: char| char_lowercase(c);
    assert((a + b).map_values(lower) =~= a.map_values(lower) + b.map_values(lower));
    lemma_flatten_concat(a.map_values(lower), b.map_values(lower));
}

/// The lowercase form of a single character, taken as a text.
pub proof fn lemma_lowercase_single(c: char)
    ensures
        lowercase(seq![c]) == char_lowercase(c),
{
    seq![c].lemma_flat_map_singleton(|c: char| char_lowercase(c));
}

/// The empty text is its own lowercase form.
pub proof fn lemma_lowercase_empty()
    ensures
        lowercase(Seq::<char>::empty()) == Seq::<char>::empty(),
{
    assert(Seq::<char>::empty().map_values(|c: char| char_lowercase(c)) =~= Seq::<
        Seq<char>,
    >::empty());
}

/// Where a text occurs in another, its lowercase form occurs in the
/// lowercase form of the other.
pub proof fn lemma_lowercase_occurrence(needle: Seq<char>, hay: Seq<char>)
    requires
        occurs_in(needle, hay),
    ensures
        occurs_in(lowercase(needle), lowercase(hay)),
{
    let at = choose|at: int| occurs_at(needle, hay, at);
    let before = hay.take(at);
    let behind = hay.skip(at + needle.len());
    assert(hay =~= before + needle + behind);
    lemma_lowercase_concat(before + needle, behind);
    lemma_lowercase_concat(before, needle);
    let start = lowercase(before).len() as int;
    assert(lowercase(hay).subrange(start, start + lowercase(needle).len()) =~= lowercase(needle));
    assert(occurs_at(lowercase(needle), lowercase(hay), start));
}

/// Lowercasing the lowercase form of `c` changes nothing more.
pub open spec fn settles(c: char) -> bool {
    lowercase(char_lowercase(c)) == char_lowercase(c)
}

/// The lowercase form of `c` is not empty, and it is a line feed if `c` is
/// one and holds no line feed if `c` is none.
pub open spec fn keeps_line_feeds(c: char) -> bool {
    &&& char_lowercase(c).len() > 0
    &&& c == LINE_FEED ==> char_lowercase(c) == seq![LINE_FEED]
    &&& c != LINE_FEED ==> !char_lowercase(c).contains(LINE_FEED)
}

/// Every character of `text` settles.
pub open spec fn all_settle(text: Seq<char>) -> bool {
    forall|i: int| 0 <= i < text.len() ==> settles(#[trigger] text[i])
}

/// Every character of `text` keeps line feeds.
pub open spec fn all_keep_line_feeds(text: Seq<char>) -> bool {
    forall|i: int| 0 <= i < text.len() ==> keeps_line_feeds(#[trigger] text[i])
}

/// Where every character settles, lowercasing a text twice is lowercasing
/// it once.
pub proof fn lemma_lowercase_settled(text: Seq<char>)
    requires
        all_settle(text),
    ensures
        lowercase(lowercase(text)) == lowercase(text),
    decreases text.len(),
{
    if text.len() > 0 {
        let front = text.drop_last();
        let last = seq![text.last()];
        assert(text =~= front + last);
        assert(all_settle(front)) by {
            assert forall|i: int| 0 <= i < front.len() implies settles(#[trigger] front[i]) by {
                assert(front[i] == text[i]);
            }
        }
        lemma_lowercase_settled(front);
        lemma_lowercase_concat(front, last);
        lemma_lowercase_single(text.last());
        lemma_lowercase_concat(lowercase(front), lowercase(last));
        assert(settles(text[text.len() - 1]));
    }
}

/// Where every character keeps line feeds, the lowercase form of a text
/// without a line feed holds none, and is empty only if the text is.
pub proof fn lemma_lowercase_without_feed(text: Seq<char>)
    requires
        all_keep_line_feeds(text),
        forall|i: int| 0 <= i < text.len() ==> text[i] != LINE_FEED,
    ensures
        forall|i: int| 0 <= i < lowercase(text).len() ==> lowercase(text)[i] != LINE_FEED,
        text.len() > 0 ==> lowercase(text).len() > 0,
    decreases text.len(),
{
    if text.len() > 0 {
        let front = text.drop_last();
        let last = seq![text.last()];
        let tail = char_lowercase(text.last());
        assert(text =~= front + last);
        assert(all_keep_line_feeds(front)) by {
            assert forall|i: int| 0 <= i < front.len() implies keeps_line_feeds(
                #[trigger] front[i],
            ) by {
                assert(front[i] == text[i]);
            }
        }
        lemma_lowercase_without_feed(front);
        lemma_lowercase_concat(front, last);
        lemma_lowercase_single(text.last());
        assert(keeps_line_feeds(text[text.len() - 1]));
        assert forall|i: int| 0 <= i < lowercase(text).len() implies lowercase(text)[i]
            != LINE_FEED by {
            if i >= lowercase(front).len() {
                assert(tail.contains(tail[i - lowercase(front).len()]));
            }
        }
    }
}

/// Where every character keeps line feeds, the lines of the lowercase form
/// of a text are the lowercase forms of its lines.
pub proof fn lemma_lowercase_lines(text: Seq<char>)
    requires
        all_keep_line_feeds(text),
    ensures
        lines(lowercase(text)) == lines(text).map_values(|line: Seq<char>| lowercase(line)),
    decreases text.len(),
{
    let lower = |line: Seq<char>| lowercase(line);
    let lowered = lowercase(text);
    lemma_lines_unfold(text);
    lemma_lines_unfold(lowered);
    lemma_first_break(text);
    if text.len() == 0 {
        lemma_lowercase_empty();
    } else {
        let n = first_break(text);
        let head = first_line(text);
        let rest = after_first_line(text);
        let cut = lowercase(head).len() as int;
        assert(all_keep_line_feeds(head) && all_keep_line_feeds(rest));
        lemma_lowercase_without_feed(head);
        lemma_lowercase_lines(rest);
        if n < text.len() {
            // The line feed behind the first line is the first of the
            // lowercase form too.
            let feed = seq![LINE_FEED];
            assert(text =~= head + feed + rest);
            lemma_lowercase_concat(head + feed, rest);
            lemma_lowercase_concat(head, feed);
            lemma_lowercase_single(LINE_FEED);
            assert(keeps_line_feeds(text[n]));
            assert(lowered =~= lowercase(head) + feed + lowercase(rest));
            lemma_first_break_is(lowered, cut);
            assert(first_line(lowered) =~= lowercase(head));
            assert(after_first_line(lowered) =~= lowercase(rest));
        } else {
            // The text is one line, and so is its lowercase form.
            assert(head =~= text);
            lemma_lowercase_empty();
            lemma_first_break_is(lowered, cut);
            assert(first_line(lowered) =~= lowered);
        }
        assert(lines(text).map_values(lower) =~= seq![lowercase(head)] + lines(rest).map_values(
            lower,
        ));
    }
}

/// Lowercasing a text with one more character at its end.
pub proof fn lemma_lowercase_push(text: Seq<char>, c: char)
    ensures
        lowercase(text.push(c)) == lowercase(text) + char_lowercase(c),
{
    assert(text.push(c) =~= text + seq![c]);
    lemma_lowercase_concat(text, seq![c]);
    lemma_lowercase_single(c);
}

/// Calls `char::to_lowercase` and collects the characters that it yields.
/// Trusted: that these characters are `char_lowercase(c)`, which is the name
/// of this very result. The standard library documents the mapping as
/// independent of context and language, so it is a function of `c` alone.
#[verifier::external_body]
fn lowercase_of(c: char) -> (lower: String)
    ensures
        lower@ == char_lowercase(c),
{
    c.to_lowercase().collect()
}

/// The lowercase form of `text`.
pub fn to_lowercase(text: &str) -> (lower: String)
    ensures
        lower@ == lowercase(text@),
{
    let mut lower = String::new();
    proof {
        lemma_lowercase_empty();
    }
    for c in it: text.chars()
        invariant
            it.seq() == text@,
            lower@ == lowercase(text@.take(it.index())),
    {
        proof {
            assert(text@.take(it.index() + 1) =~= text@.take(it.index()).push(c));
            lemma_lowercase_push(text@.take(it.index()), c);
        }
        let piece = lowercase_of(c);
        lower.append(piece.as_str());
    }
    assert(text@.take(text@.len() as int) =~= text@);
    lower
}

/// Whether lowercasing settles on `c` and keeps line feeds. The laws on
/// searching a lowered text ask this of every character involved; here it
/// can be put to the test for any one of them.
pub fn lowercase_is_stable(c: char) -> (stable: bool)
    ensures
        stable == (settles(c) && keeps_line_feeds(c)),
{
    let lower = lowercase_of(c);
    let again = to_lowercase(lower.as_str());
    let settled = str_eq(again.as_str(), lower.as_str());
    let holds_feed = contains(lower.as_str(), "\n");
    proof {
        reveal_strlit("\n");
        assert("\n"@ =~= seq![LINE_FEED]);
        if holds_feed {
            let at = choose|at: int| occurs_at(seq![LINE_FEED], lower@, at);
            assert(lower@[at] == lower@.subrange(at, at + 1)[0]);
        }
        if lower@.contains(LINE_FEED) {
            let at = choose|at: int| 0 <= at < lower@.len() && lower@[at] == LINE_FEED;
            assert(lower@.subrange(at, at + 1) =~= seq![LINE_FEED]);
            assert(occurs_at(seq![LINE_FEED], lower@, at));
        }
    }
    let kept = if c == LINE_FEED {
        str_eq(lower.as_str(), "\n")
    } else {
        !lower.as_str().is_empty() && !holds_feed
    };
    settled && kept
}

} // verus!
