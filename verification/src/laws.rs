//! What holds of the searches for every text and every query.

use vstd::prelude::*;
use crate::case::{
    all_keep_line_feeds, all_settle, lemma_lowercase_empty, lemma_lowercase_lines,
    lemma_lowercase_occurrence, lemma_lowercase_settled, lowercase, settles,
};
use crate::order::{
    is_subsequence, lemma_drop_last_is_subsequence, lemma_filter_all, lemma_filter_count,
    lemma_filter_is_subsequence, lemma_filter_of_images, lemma_filter_through,
    lemma_subsequence_reflexive, lemma_subsequence_transitive, picks_out,
};
use crate::search::{matching_lines, matching_lines_ignoring_case};
use crate::text::{
    LINE_FEED, lemma_lines_characters, lemma_lines_hold_no_feed, lemma_segments_nonempty, lines,
    occurs_at, occurs_in, segments,
};

verus! {

/// The lines of a text are its segments in their order, all of them or all
/// but the last.
pub proof fn law_lines_among_segments(text: Seq<char>)
    ensures
        is_subsequence(lines(text), segments(text)),
{
    lemma_segments_nonempty(text);
    if segments(text).last().len() == 0 {
        lemma_drop_last_is_subsequence(segments(text));
    } else {
        lemma_subsequence_reflexive(segments(text));
    }
}

/// A query that is not empty occurs in no empty segment, so it finds the
/// same whether or not the empty segment behind a final line feed counts as
/// a line.
pub proof fn law_last_segment_immaterial(text: Seq<char>, query: Seq<char>)
    requires
        query.len() > 0,
    ensures
        matching_lines(text, query) == segments(text).filter(
            |line: Seq<char>| occurs_in(query, line),
        ),
{
    let holds = |line: Seq<char>| occurs_in(query, line);
    let all = segments(text);
    lemma_segments_nonempty(text);
    if all.last().len() == 0 {
        assert(!holds(all.last())) by {
            assert forall|at: int| !occurs_at(query, all.last(), at) by {}
        }
        assert(all =~= all.drop_last().push(all.last()));
        all.drop_last().lemma_filter_push(all.last(), holds);
    }
}

/// The case-sensitive result is an order-preserving subsequence of the lines
/// of the text, and so of the text cut at every line feed.
pub proof fn law_sensitive_subsequence(content: Seq<char>, query: Seq<char>)
    ensures
        is_subsequence(matching_lines(content, query), lines(content)),
        is_subsequence(matching_lines(content, query), segments(content)),
{
    lemma_filter_is_subsequence(lines(content), |line: Seq<char>| occurs_in(query, line));
    law_lines_among_segments(content);
    lemma_subsequence_transitive(matching_lines(content, query), lines(content), segments(content));
}

/// The case-insensitive result is an order-preserving subsequence of the
/// lines of the text, and so of the text cut at every line feed.
pub proof fn law_insensitive_subsequence(content: Seq<char>, query: Seq<char>)
    ensures
        is_subsequence(matching_lines_ignoring_case(content, query), lines(content)),
        is_subsequence(matching_lines_ignoring_case(content, query), segments(content)),
{
    lemma_filter_is_subsequence(
        lines(content),
        |line: Seq<char>| occurs_in(lowercase(query), lowercase(line)),
    );
    law_lines_among_segments(content);
    lemma_subsequence_transitive(
        matching_lines_ignoring_case(content, query),
        lines(content),
        segments(content),
    );
}

/// No line of a result holds a line feed: a result is made of line bodies.
pub proof fn law_results_hold_no_line_feed(content: Seq<char>, query: Seq<char>)
    ensures
        forall|k: int, i: int|
            0 <= k < matching_lines(content, query).len() && 0 <= i < matching_lines(
                content,
                query,
            )[k].len() ==> #[trigger] matching_lines(content, query)[k][i] != LINE_FEED,
        forall|k: int, i: int|
            0 <= k < matching_lines_ignoring_case(content, query).len() && 0 <= i
                < matching_lines_ignoring_case(content, query)[k].len()
                ==> #[trigger] matching_lines_ignoring_case(content, query)[k][i] != LINE_FEED,
{
    let all = lines(content);
    let narrow = matching_lines(content, query);
    let wide = matching_lines_ignoring_case(content, query);
    lemma_lines_hold_no_feed(content);
    law_sensitive_subsequence(content, query);
    law_insensitive_subsequence(content, query);
    let narrow_picks = choose|picks: Seq<int>| picks_out(picks, all, narrow);
    let wide_picks = choose|picks: Seq<int>| picks_out(picks, all, wide);
    assert forall|k: int, i: int| 0 <= k < narrow.len() && 0 <= i < narrow[k].len() implies
        #[trigger] narrow[k][i] != LINE_FEED by {
        assert(0 <= narrow_picks[k] < all.len() && all[narrow_picks[k]] == narrow[k]);
    }
    assert forall|k: int, i: int| 0 <= k < wide.len() && 0 <= i < wide[k].len() implies
        #[trigger] wide[k][i] != LINE_FEED by {
        assert(0 <= wide_picks[k] < all.len() && all[wide_picks[k]] == wide[k]);
    }
}

/// Every line that the case-sensitive search finds, the case-insensitive
/// search finds too: the first result is the second with lines left out.
pub proof fn law_refinement(content: Seq<char>, query: Seq<char>)
    ensures
        is_subsequence(
            matching_lines(content, query),
            matching_lines_ignoring_case(content, query),
        ),
        matching_lines(content, query) == matching_lines_ignoring_case(content, query).filter(
            |line: Seq<char>| occurs_in(query, line),
        ),
{
    let as_written = |line: Seq<char>| occurs_in(query, line);
    let lowered = |line: Seq<char>| occurs_in(lowercase(query), lowercase(line));
    let all = lines(content);
    assert forall|k: int| 0 <= k < all.len() && as_written(#[trigger] all[k]) implies lowered(
        all[k],
    ) by {
        lemma_lowercase_occurrence(query, all[k]);
    }
    lemma_filter_through(all, as_written, lowered);
    lemma_filter_is_subsequence(all.filter(lowered), as_written);
}

/// The empty query is found in every line: both searches give all the lines
/// of the text.
pub proof fn law_empty_query(content: Seq<char>)
    ensures
        matching_lines(content, Seq::empty()) == lines(content),
        matching_lines_ignoring_case(content, Seq::empty()) == lines(content),
{
    let none = Seq::<char>::empty();
    let as_written = |line: Seq<char>| occurs_in(none, line);
    let lowered = |line: Seq<char>| occurs_in(lowercase(none), lowercase(line));
    let all = lines(content);
    lemma_lowercase_empty();
    assert forall|k: int| 0 <= k < all.len() implies as_written(#[trigger] all[k]) && lowered(
        all[k],
    ) by {
        assert(all[k].subrange(0, 0) =~= none);
        assert(occurs_at(none, all[k], 0));
        assert(lowercase(all[k]).subrange(0, 0) =~= none);
        assert(occurs_at(none, lowercase(all[k]), 0));
    }
    lemma_filter_all(all, as_written);
    lemma_filter_all(all, lowered);
}

/// No line is given twice, however often the query occurs in it: a text
/// stands among the results as often as it stands among the lines of the
/// content if the query occurs in it, and not at all if it does not.
pub proof fn law_no_line_twice(content: Seq<char>, query: Seq<char>, line: Seq<char>)
    ensures
        matching_lines(content, query).to_multiset().count(line) == if occurs_in(query, line) {
            lines(content).to_multiset().count(line)
        } else {
            0
        },
        matching_lines_ignoring_case(content, query).to_multiset().count(line) == if occurs_in(
            lowercase(query),
            lowercase(line),
        ) {
            lines(content).to_multiset().count(line)
        } else {
            0
        },
{
    lemma_filter_count(lines(content), |line: Seq<char>| occurs_in(query, line), line);
    lemma_filter_count(
        lines(content),
        |line: Seq<char>| occurs_in(lowercase(query), lowercase(line)),
        line,
    );
}

/// The case-insensitive search reads the query through its lowercase form
/// alone: two queries with the same lowercase form find the same lines.
pub proof fn law_query_case_immaterial(content: Seq<char>, query: Seq<char>, other: Seq<char>)
    requires
        lowercase(query) == lowercase(other),
    ensures
        matching_lines_ignoring_case(content, query) == matching_lines_ignoring_case(
            content,
            other,
        ),
{
}

/// Searching the lowercase form of a text for the lowercase form of a query
/// finds the lowercase forms of the lines that the search of the text itself
/// finds, where lowercasing settles on every character of both and keeps the
/// line feeds of the text. Neither follows from the standard library's
/// documentation of its mapping, so both are asked of the inputs.
pub proof fn law_lowered_search(content: Seq<char>, query: Seq<char>)
    requires
        all_settle(content),
        all_settle(query),
        all_keep_line_feeds(content),
    ensures
        matching_lines_ignoring_case(lowercase(content), lowercase(query))
            == matching_lines_ignoring_case(content, query).map_values(
            |line: Seq<char>| lowercase(line),
        ),
{
    let all = lines(content);
    let lower = |line: Seq<char>| lowercase(line);
    let found = |line: Seq<char>| occurs_in(lowercase(query), lowercase(line));
    let found_lowered = |line: Seq<char>| occurs_in(lowercase(lowercase(query)), lowercase(line));
    lemma_lowercase_lines(content);
    lemma_lowercase_settled(query);
    lemma_lines_characters(content, |c: char| settles(c));
    assert forall|k: int| 0 <= k < all.len() implies found_lowered(lower(#[trigger] all[k]))
        == found(all[k]) by {
        lemma_lowercase_settled(all[k]);
    }
    lemma_filter_of_images(all, lower, found, found_lowered);
}

/// Lowercasing both the text and the query beforehand does not change what
/// the case-insensitive search gives, where the lines that it finds are in
/// lowercase already and lowercasing settles and keeps line feeds as in
/// `law_lowered_search`. A found line with a capital in it comes back as it
/// stands in the text, and so differs from the line found in the lowered
/// text.
pub proof fn law_lowercase_idempotence(content: Seq<char>, query: Seq<char>)
    requires
        all_settle(content),
        all_settle(query),
        all_keep_line_feeds(content),
        forall|k: int|
            0 <= k < matching_lines_ignoring_case(content, query).len() ==> lowercase(
                #[trigger] matching_lines_ignoring_case(content, query)[k],
            ) == matching_lines_ignoring_case(content, query)[k],
    ensures
        matching_lines_ignoring_case(content, query) == matching_lines_ignoring_case(
            lowercase(content),
            lowercase(query),
        ),
{
    law_lowered_search(content, query);
    let found = matching_lines_ignoring_case(content, query);
    assert(found.map_values(|line: Seq<char>| lowercase(line)) =~= found);
}

} // verus!
