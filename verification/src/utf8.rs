//! Facts about the UTF-8 encoding of character sequences. The executable
//! search works on the bytes of a string slice; these lemmas carry what it
//! finds there over to the characters that the contracts speak of.

use vstd::prelude::*;
use vstd::utf8::*;
use crate::text::{LINE_FEED, occurs_at, occurs_in};

verus! {

/// The byte that encodes a line feed.
pub const LINE_FEED_BYTE: u8 = 10;

/// Encoding distributes over concatenation.
pub proof fn lemma_encode_concat(a: Seq<char>, b: Seq<char>)
    ensures
        encode_utf8(a + b) == encode_utf8(a) + encode_utf8(b),
    decreases a.len(),
{
    if a.len() > 0 {
        lemma_encode_concat(a.drop_first(), b);
        assert((a + b).drop_first() == a.drop_first() + b);
    }
}

/// Two character sequences with the same encoding are the same sequence.
pub proof fn lemma_encode_injective(a: Seq<char>, b: Seq<char>)
    requires
        encode_utf8(a) == encode_utf8(b),
    ensures
        a == b,
{
    encode_utf8_decode_utf8(a);
    encode_utf8_decode_utf8(b);
}

/// Among the bytes that encode one scalar value, only the single byte of the
/// line feed itself is the line feed byte.
proof fn lemma_scalar_bytes(v: u32)
    by (bit_vector)
    ensures
        has_width_1_encoding(v) ==> (leading_byte_width_1(v) == 10u8 <==> v == 10u32),
        leading_byte_width_2(v) != 10u8,
        leading_byte_width_3(v) != 10u8,
        leading_byte_width_4(v) != 10u8,
        last_continuation_byte(v) != 10u8,
        second_last_continuation_byte(v) != 10u8,
        third_last_continuation_byte(v) != 10u8,
{
}

/// A character's encoding holds the line feed byte only if the character is
/// the line feed, whose encoding is that one byte.
pub proof fn lemma_char_encoding(c: char)
    ensures
        encode_scalar(c as u32).len() >= 1,
        c == LINE_FEED ==> encode_scalar(c as u32) == seq![LINE_FEED_BYTE],
        forall|i: int|
            0 <= i < encode_scalar(c as u32).len() && #[trigger] encode_scalar(c as u32)[i]
                == LINE_FEED_BYTE ==> c == LINE_FEED,
{
    lemma_scalar_bytes(c as u32);
}

/// The encoding of a text that is not empty starts with the encoding of its
/// first character.
pub proof fn lemma_encode_first(s: Seq<char>)
    requires
        s.len() > 0,
    ensures
        encode_utf8(s) == encode_scalar(s[0] as u32) + encode_utf8(s.drop_first()),
        encode_utf8(s).len() >= 1,
        encode_utf8(s)[0] == LINE_FEED_BYTE <==> s[0] == LINE_FEED,
{
    lemma_char_encoding(s[0]);
}

/// A text whose encoding holds no line feed byte holds no line feed.
pub proof fn lemma_no_feed_byte(s: Seq<char>)
    requires
        forall|i: int| 0 <= i < encode_utf8(s).len() ==> encode_utf8(s)[i] != LINE_FEED_BYTE,
    ensures
        forall|k: int| 0 <= k < s.len() ==> s[k] != LINE_FEED,
{
    assert forall|k: int| 0 <= k < s.len() implies s[k] != LINE_FEED by {
        if s[k] == LINE_FEED {
            assert(s =~= s.take(k) + s.skip(k));
            lemma_encode_concat(s.take(k), s.skip(k));
            lemma_encode_first(s.skip(k));
            let at = encode_utf8(s.take(k)).len() as int;
            assert(encode_utf8(s)[at] == encode_utf8(s.skip(k))[0]);
        }
    }
}

/// Where a well-formed byte sequence starts with another, the other ends on a
/// character boundary of the first.
pub proof fn lemma_prefix_boundary(whole: Seq<u8>, prefix: Seq<u8>)
    requires
        valid_utf8(whole),
        valid_utf8(prefix),
        prefix.is_prefix_of(whole),
    ensures
        is_char_boundary(whole, prefix.len() as int),
    decreases prefix.len(),
{
    if prefix.len() > 0 {
        // Both start with the same character, and what follows it in the
        // prefix is a prefix of what follows it in the whole.
        let width = length_of_first_scalar(prefix);
        assert(forall|i: int| 0 <= i < prefix.len() ==> whole[i] == prefix[i]);
        assert(width == length_of_first_scalar(whole));
        assert(pop_first_scalar(prefix) =~= pop_first_scalar(whole).subrange(
            0,
            prefix.len() - width,
        ));
        lemma_prefix_boundary(pop_first_scalar(whole), pop_first_scalar(prefix));
    }
}

/// An occurrence among the characters is an occurrence among the bytes.
pub proof fn lemma_occurrence_encoded(needle: Seq<char>, hay: Seq<char>)
    requires
        occurs_in(needle, hay),
    ensures
        occurs_in(encode_utf8(needle), encode_utf8(hay)),
{
    let at = choose|at: int| occurs_at(needle, hay, at);
    let before = hay.take(at);
    let behind = hay.skip(at + needle.len());
    assert(hay =~= before + needle + behind);
    lemma_encode_concat(before + needle, behind);
    lemma_encode_concat(before, needle);
    let start = encode_utf8(before).len() as int;
    assert(encode_utf8(hay).subrange(start, start + encode_utf8(needle).len()) =~= encode_utf8(
        needle,
    ));
    assert(occurs_at(encode_utf8(needle), encode_utf8(hay), start));
}

/// An occurrence of an encoded text among the bytes of another is an
/// occurrence among the characters: it starts and ends on character
/// boundaries.
pub proof fn lemma_occurrence_decoded(needle: Seq<char>, hay: Seq<char>)
    requires
        occurs_in(encode_utf8(needle), encode_utf8(hay)),
    ensures
        occurs_in(needle, hay),
{
    let found = encode_utf8(needle);
    let bytes = encode_utf8(hay);
    let start = choose|at: int| occurs_at(found, bytes, at);
    encode_utf8_valid_utf8(needle);
    encode_utf8_valid_utf8(hay);
    encode_utf8_decode_utf8(needle);
    encode_utf8_decode_utf8(hay);
    if needle.len() == 0 {
        assert(hay.subrange(0, 0) =~= needle);
        assert(occurs_at(needle, hay, 0));
    } else {
        // The occurrence starts with the first byte of a character, so on a
        // character boundary of the bytes.
        lemma_encode_first(needle);
        assert(bytes[start] == bytes.subrange(start, start + found.len())[0]);
        is_char_boundary_iff_not_is_continuation_byte(bytes, start);
        valid_utf8_split(bytes, start);
        decode_utf8_split(bytes, start);
        // It ends on one too, being well formed itself.
        let from = bytes.subrange(start, bytes.len() as int);
        assert(from.subrange(0, found.len() as int) =~= found);
        lemma_prefix_boundary(from, found);
        decode_utf8_split(from, found.len() as int);
        // So the text is what stands before it, the needle, and what stands behind.
        let before = decode_utf8(bytes.subrange(0, start));
        let behind = decode_utf8(from.subrange(found.len() as int, from.len() as int));
        assert(hay == before + (needle + behind));
        assert(hay.subrange(before.len() as int, before.len() as int + needle.len()) =~= needle);
        assert(occurs_at(needle, hay, before.len() as int));
    }
}

} // verus!
