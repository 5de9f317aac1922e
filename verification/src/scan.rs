//! Executable operations on string slices. They work on the UTF-8 bytes and
//! promise their results over the characters.

use vstd::prelude::*;
use vstd::utf8::*;
use crate::text::{
    LINE_FEED, after_first_line, first_line, lemma_first_break_is, occurs_at, occurs_in,
};
use crate::utf8::{
    LINE_FEED_BYTE, lemma_encode_concat, lemma_encode_first, lemma_encode_injective,
    lemma_no_feed_byte, lemma_occurrence_decoded, lemma_occurrence_encoded,
};

verus! {

/// Whether two byte slices hold the same bytes.
fn same_bytes(a: &[u8], b: &[u8]) -> (same: bool)
    ensures
        same == (a@ == b@),
{
    if a.len() != b.len() {
        return false;
    }
    let mut i: usize = 0;
    while i < a.len()
        invariant
            a@.len() == b@.len(),
            i <= a@.len(),
            forall|k: int| 0 <= k < i ==> a@[k] == b@[k],
        decreases a@.len() - i,
    {
        if a[i] != b[i] {
            return false;
        }
        i += 1;
    }
    assert(a@ =~= b@);
    true
}

/// Whether two string slices hold the same text.
pub fn str_eq(a: &str, b: &str) -> (same: bool)
    ensures
        same == (a@ == b@),
{
    let same = same_bytes(a.as_bytes(), b.as_bytes());
    proof {
        if same {
            lemma_encode_injective(a@, b@);
        }
    }
    same
}

/// Whether `needle` stands in `hay` at byte `at`.
fn bytes_occur_at(needle: &[u8], hay: &[u8], at: usize) -> (found: bool)
    requires
        at + needle@.len() <= hay@.len() <= usize::MAX,
    ensures
        found == occurs_at(needle@, hay@, at as int),
{
    let mut k: usize = 0;
    while k < needle.len()
        invariant
            at + needle@.len() <= hay@.len() <= usize::MAX,
            k <= needle@.len(),
            forall|j: int| 0 <= j < k ==> hay@[at + j] == needle@[j],
        decreases needle@.len() - k,
    {
        if hay[at + k] != needle[k] {
            return false;
        }
        k += 1;
    }
    assert(hay@.subrange(at as int, at + needle@.len()) =~= needle@);
    true
}

/// Whether `needle` is a contiguous run of `hay`.
fn bytes_occur_in(needle: &[u8], hay: &[u8]) -> (found: bool)
    ensures
        found == occurs_in(needle@, hay@),
{
    if needle.len() > hay.len() {
        return false;
    }
    let last: usize = hay.len() - needle.len();
    let mut at: usize = 0;
    loop
        invariant
            last == hay@.len() - needle@.len(),
            hay@.len() <= usize::MAX,
            at <= last,
            forall|i: int| 0 <= i < at ==> !occurs_at(needle@, hay@, i),
        decreases last - at,
    {
        if bytes_occur_at(needle, hay, at) {
            return true;
        }
        if at == last {
            return false;
        }
        at += 1;
    }
}

/// Whether `needle` occurs in `hay` as a contiguous run of characters. The
/// empty text occurs in every text.
pub fn contains(hay: &str, needle: &str) -> (found: bool)
    ensures
        found == occurs_in(needle@, hay@),
{
    let found = bytes_occur_in(needle.as_bytes(), hay.as_bytes());
    proof {
        if found {
            lemma_occurrence_decoded(needle@, hay@);
        } else if occurs_in(needle@, hay@) {
            lemma_occurrence_encoded(needle@, hay@);
        }
    }
    found
}

/// The index of the first line feed byte, or the length when there is none.
fn first_feed(bytes: &[u8]) -> (at: usize)
    ensures
        at <= bytes@.len(),
        at < bytes@.len() ==> bytes@[at as int] == LINE_FEED_BYTE,
        forall|i: int| 0 <= i < at ==> bytes@[i] != LINE_FEED_BYTE,
{
    let mut at: usize = 0;
    while at < bytes.len() && bytes[at] != LINE_FEED_BYTE
        invariant
            at <= bytes@.len(),
            forall|i: int| 0 <= i < at ==> bytes@[i] != LINE_FEED_BYTE,
        decreases bytes@.len() - at,
    {
        at += 1;
    }
    at
}

/// Cuts a text at its first line feed: the line before it, and what stands
/// behind it. Without a line feed the whole text is the line and nothing is
/// left.
pub fn split_line<'a>(text: &'a str) -> (parts: (&'a str, &'a str))
    ensures
        parts.0@ == first_line(text@),
        parts.1@ == after_first_line(text@),
{
    let bytes = text.as_bytes();
    let at = first_feed(bytes);
    proof {
        encode_utf8_valid_utf8(text@);
        if at < bytes@.len() {
            is_char_boundary_iff_not_is_continuation_byte(bytes@, at as int);
        } else {
            is_char_boundary_start_end_of_seq(bytes@);
        }
    }
    let (line, tail) = text.split_at(at);
    proof {
        // The two parts make up the text, and the first holds no line feed.
        assert(encode_utf8(line@) + encode_utf8(tail@) =~= encode_utf8(text@));
        lemma_encode_concat(line@, tail@);
        lemma_encode_injective(line@ + tail@, text@);
        lemma_no_feed_byte(line@);
        assert forall|k: int| 0 <= k < line@.len() implies text@[k] != LINE_FEED by {
            assert(text@[k] == line@[k]);
        }
    }
    if at < bytes.len() {
        proof {
            // The second part starts with the line feed, which is one byte.
            lemma_encode_first(tail@);
            encode_utf8_valid_utf8(tail@);
            reveal_with_fuel(is_char_boundary, 2);
        }
        let (_, rest) = tail.split_at(1);
        proof {
            assert(encode_utf8(tail@.drop_first()) =~= encode_utf8(rest@));
            lemma_encode_injective(tail@.drop_first(), rest@);
            lemma_first_break_is(text@, line@.len() as int);
            assert(rest@ =~= text@.skip(line@.len() as int + 1));
        }
        (line, rest)
    } else {
        proof {
            // Nothing is left behind the line.
            if tail@.len() > 0 {
                lemma_encode_first(tail@);
            }
            lemma_first_break_is(text@, line@.len() as int);
        }
        (line, tail)
    }
}

} // verus!
