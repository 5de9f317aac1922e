//! The two searches: the lines of a text in which a query occurs, as written
//! or without regard to letter case.

use vstd::prelude::*;
use crate::case::{lowercase, to_lowercase};
use crate::scan::{contains, split_line};
use crate::text::{lemma_first_break, lemma_lines_unfold, lines, occurs_in};

verus! {

/// The lines of `text` in which `query` occurs, in the order of the text.
pub open spec fn matching_lines(text: Seq<char>, query: Seq<char>) -> Seq<Seq<char>> {
    lines(text).filter(|line: Seq<char>| occurs_in(query, line))
}

/// The lines of `text` whose lowercase form holds the lowercase form of
/// `query`, in the order of the text. The lines themselves are given as they
/// stand in the text.
pub open spec fn matching_lines_ignoring_case(text: Seq<char>, query: Seq<char>) -> Seq<
    Seq<char>,
> {
    lines(text).filter(|line: Seq<char>| occurs_in(lowercase(query), lowercase(line)))
}

/// The form in which a line is compared: itself, or its lowercase form.
spec fn compared_form(line: Seq<char>, ignore_case: bool) -> Seq<char> {
    if ignore_case {
        lowercase(line)
    } else {
        line
    }
}

/// The lines of `text` whose compared form holds `needle`, in the order of
/// the text.
spec fn selected_lines(text: Seq<char>, needle: Seq<char>, ignore_case: bool) -> Seq<Seq<char>> {
    lines(text).filter(|line: Seq<char>| occurs_in(needle, compared_form(line, ignore_case)))
}

/// Whether `needle` occurs in the compared form of `line`.
fn line_holds(line: &str, needle: &str, ignore_case: bool) -> (held: bool)
    ensures
        held == occurs_in(needle@, compared_form(line@, ignore_case)),
{
    if ignore_case {
        let lowered = to_lowercase(line);
        contains(lowered.as_str(), needle)
    } else {
        contains(line, needle)
    }
}

/// Walks the text line by line and keeps the lines that hold `needle`.
fn select_lines<'a>(content: &'a str, needle: &str, ignore_case: bool) -> (found: Vec<&'a str>)
    ensures
        found.deep_view() == selected_lines(content@, needle@, ignore_case),
{
    let ghost holds = |line: Seq<char>| occurs_in(needle@, compared_form(line, ignore_case));
    let mut found: Vec<&'a str> = Vec::new();
    let mut rest = content;
    while !rest.is_empty()
        invariant
            holds == |line: Seq<char>| occurs_in(needle@, compared_form(line, ignore_case)),
            lines(content@).filter(holds) == found.deep_view() + lines(rest@).filter(holds),
        decreases rest@.len(),
    {
        let ghost before = found.deep_view();
        let (line, tail) = split_line(rest);
        proof {
            // The lines that are left are this line and those behind it.
            lemma_lines_unfold(rest@);
            lemma_first_break(rest@);
            lines(tail@).lemma_filter_prepend(line@, holds);
        }
        if line_holds(line, needle, ignore_case) {
            found.push(line);
            assert(found.deep_view() =~= before.push(line@));
        }
        rest = tail;
        assert(lines(content@).filter(holds) =~= found.deep_view() + lines(rest@).filter(holds));
    }
    proof {
        lemma_lines_unfold(rest@);
        assert(found.deep_view() + lines(rest@).filter(holds) =~= found.deep_view());
    }
    found
}

/// The lines of `content` that hold `query`, each as it stands in the text
/// and in the order of the text.
pub fn search<'a>(content: &'a str, query: &'a str) -> (results: Vec<&'a str>)
    ensures
        results.deep_view() == matching_lines(content@, query@),
{
    let results = select_lines(content, query, false);
    proof {
        let as_written = |line: Seq<char>| occurs_in(query@, line);
        let selected = |line: Seq<char>| occurs_in(query@, compared_form(line, false));
        assert(as_written =~= selected);
    }
    results
}

/// The lines of `content` that hold `query` when letter case is set aside:
/// both the line and the query are compared in their lowercase forms. The
/// lines are given as they stand in the text, in its order.
pub fn insensitive_search<'a>(content: &'a str, query: &'a str) -> (results: Vec<&'a str>)
    ensures
        results.deep_view() == matching_lines_ignoring_case(content@, query@),
{
    let needle = to_lowercase(query);
    let results = select_lines(content, needle.as_str(), true);
    proof {
        let lowered = |line: Seq<char>| occurs_in(lowercase(query@), lowercase(line));
        let selected = |line: Seq<char>| occurs_in(needle@, compared_form(line, true));
        assert(lowered =~= selected);
    }
    results
}

} // verus!
