//! Command lines as bytes: white space, character boundaries and slices.
//!
//! A command line is a `&str`, and the places in it are byte offsets. What
//! is said about a line here is said about its UTF-8 bytes.

use vstd::prelude::*;
use vstd::string::*;
use vstd::utf8::*;

verus! {

/// Whether `at` is a place in `bytes` where a character starts or the text
/// ends: no place in the middle of a character's encoding.
pub open spec fn boundary(bytes: Seq<u8>, at: int) -> bool {
    0 <= at <= bytes.len() && (at == bytes.len() || !is_continuation_byte(bytes[at]))
}

/// In the bytes of a text, the places called boundaries here are the
/// character boundaries of the encoding.
pub proof fn lemma_boundary_is_char_boundary(bytes: Seq<u8>, at: int)
    requires
        valid_utf8(bytes),
        0 <= at <= bytes.len(),
    ensures
        boundary(bytes, at) == is_char_boundary(bytes, at),
{
    if at == bytes.len() {
        is_char_boundary_start_end_of_seq(bytes);
    } else {
        is_char_boundary_iff_not_is_continuation_byte(bytes, at);
    }
}

/// The part of `text` between two of its boundaries.
pub fn slice_str<'a>(text: &'a str, start: usize, end: usize) -> (part: &'a str)
    requires
        start <= end,
        boundary(text.spec_bytes(), start as int),
        boundary(text.spec_bytes(), end as int),
    ensures
        part.spec_bytes() == text.spec_bytes().subrange(start as int, end as int),
{
    let ghost bytes = text.spec_bytes();
    proof {
        encode_utf8_valid_utf8(text@);
        lemma_boundary_is_char_boundary(bytes, end as int);
    }
    let (head, _) = text.split_at(end);
    proof {
        encode_utf8_valid_utf8(head@);
        lemma_boundary_is_char_boundary(head.spec_bytes(), start as int);
    }
    let (_, part) = head.split_at(start);
    assert(part.spec_bytes() =~= bytes.subrange(start as int, end as int));
    part
}

/// Whether three bytes are the encoding of one of the white-space characters
/// that take three bytes: U+1680, U+2000 to U+200A, U+2028, U+2029, U+202F,
/// U+205F and U+3000.
pub open spec fn is_wide_whitespace(first: u8, second: u8, third: u8) -> bool {
    ||| first == 0xe1 && second == 0x9a && third == 0x80
    ||| first == 0xe2 && second == 0x80 && (0x80 <= third <= 0x8a || third == 0xa8 || third
        == 0xa9 || third == 0xaf)
    ||| first == 0xe2 && second == 0x81 && third == 0x9f
    ||| first == 0xe3 && second == 0x80 && third == 0x80
}

/// The number of bytes of the white-space character that starts at `at` and
/// ends before `end`; zero where no such character starts at `at`.
///
/// White space is what Unicode calls so: the ASCII characters U+0009 to
/// U+000D and U+0020, the two-byte characters U+0085 and U+00A0, and the
/// three-byte characters of `is_wide_whitespace`.
pub open spec fn whitespace_len(bytes: Seq<u8>, at: int, end: int) -> int {
    if at < 0 || at >= end || end > bytes.len() {
        0
    } else if bytes[at] == 0x20 || 0x09 <= bytes[at] <= 0x0d {
        1
    } else if at + 1 < end && bytes[at] == 0xc2 && (bytes[at + 1] == 0x85 || bytes[at + 1]
        == 0xa0) {
        2
    } else if at + 2 < end && is_wide_whitespace(bytes[at], bytes[at + 1], bytes[at + 2]) {
        3
    } else {
        0
    }
}

/// Whether `c` is white space.
pub open spec fn is_whitespace(c: char) -> bool {
    let code = c as u32;
    ||| code == 0x20
    ||| 0x09 <= code <= 0x0d
    ||| code == 0x85
    ||| code == 0xa0
    ||| code == 0x1680
    ||| 0x2000 <= code <= 0x200a
    ||| code == 0x2028
    ||| code == 0x2029
    ||| code == 0x202f
    ||| code == 0x205f
    ||| code == 0x3000
}

/// The bytes that count as white space are the encodings of the characters
/// that are white space: at the start of a character's encoding, the length
/// found is that of the whole encoding if the character is white space, and
/// zero if it is not.
pub proof fn lemma_whitespace_len_of_char(c: char)
    ensures
        whitespace_len(encode_scalar(c as u32), 0, encode_scalar(c as u32).len() as int)
            == if is_whitespace(c) {
            encode_scalar(c as u32).len() as int
        } else {
            0
        },
{
    let s = c as u32;
    char_is_scalar(c);
    if has_width_1_encoding(s) {
        let b0 = leading_byte_width_1(s);
        assert(b0 == s) by (bit_vector)
            requires
                s <= 0x7f,
                b0 == (s & 0x7F) as u8,
        ;
    } else if has_width_2_encoding(s) {
        let b0 = leading_byte_width_2(s);
        let b1 = last_continuation_byte(s);
        assert(b0 >= 0xc0 && ((b0 == 0xc2 && b1 == 0x85) <==> s == 0x85) && ((b0 == 0xc2 && b1
            == 0xa0) <==> s == 0xa0)) by (bit_vector)
            requires
                0x80 <= s <= 0x7ff,
                b0 == 0xC0 | ((s >> 6) & 0x1F) as u8,
                b1 == 0x80 | (s & 0x3F) as u8,
        ;
    } else if has_width_3_encoding(s) {
        let b0 = leading_byte_width_3(s);
        let b1 = second_last_continuation_byte(s);
        let b2 = last_continuation_byte(s);
        assert(b0 >= 0xe0 && ((b0 == 0xe1 && b1 == 0x9a && b2 == 0x80) <==> s == 0x1680) && ((b0
            == 0xe2 && b1 == 0x80 && 0x80 <= b2 <= 0x8a) <==> 0x2000 <= s <= 0x200a) && ((b0
            == 0xe2 && b1 == 0x80 && b2 == 0xa8) <==> s == 0x2028) && ((b0 == 0xe2 && b1 == 0x80
            && b2 == 0xa9) <==> s == 0x2029) && ((b0 == 0xe2 && b1 == 0x80 && b2 == 0xaf) <==> s
            == 0x202f) && ((b0 == 0xe2 && b1 == 0x81 && b2 == 0x9f) <==> s == 0x205f) && ((b0
            == 0xe3 && b1 == 0x80 && b2 == 0x80) <==> s == 0x3000)) by (bit_vector)
            requires
                0x800 <= s <= 0xffff,
                b0 == 0xE0 | ((s >> 12) & 0x0F) as u8,
                b1 == 0x80 | ((s >> 6) & 0x3F) as u8,
                b2 == 0x80 | (s & 0x3F) as u8,
        ;
    } else {
        let b0 = leading_byte_width_4(s);
        assert(b0 >= 0xf0) by (bit_vector)
            requires
                b0 == 0xF0 | ((s >> 18) & 0x7) as u8,
        ;
    }
}

/// The first place from `from` on where white space starts, or `end` where
/// none starts before it.
pub open spec fn token_end(bytes: Seq<u8>, from: int, end: int) -> int
    decreases end - from,
{
    if from >= end {
        end
    } else if whitespace_len(bytes, from, end) > 0 {
        from
    } else {
        token_end(bytes, from + 1, end)
    }
}

/// The first place from `from` on that is not in a run of white space, or
/// `end` where the run goes on to there.
pub open spec fn skip_whitespace(bytes: Seq<u8>, from: int, end: int) -> int
    decreases end - from,
{
    if from >= end {
        end
    } else if whitespace_len(bytes, from, end) > 0 {
        skip_whitespace(bytes, from + whitespace_len(bytes, from, end), end)
    } else {
        from
    }
}

/// Behind a white-space character that starts on a boundary lies a boundary.
pub proof fn lemma_whitespace_ends_on_boundary(bytes: Seq<u8>, at: int, end: int)
    requires
        valid_utf8(bytes),
        boundary(bytes, at),
        whitespace_len(bytes, at, end) > 0,
    ensures
        boundary(bytes, at + whitespace_len(bytes, at, end)),
{
    let n = whitespace_len(bytes, at, end);
    let len = bytes.len() as int;
    lemma_boundary_is_char_boundary(bytes, at);
    valid_utf8_split(bytes, at);
    let tail = bytes.subrange(at, len);
    reveal_with_fuel(valid_utf8, 2);
    assert(tail[0] == bytes[at]);
    assert(length_of_first_scalar(tail) == n);
    let rest = pop_first_scalar(tail);
    if at + n < len {
        assert(rest[0] == bytes[at + n]);
    }
}

/// The end of a token that starts on a boundary is a boundary, and so is the
/// end of a run of white space.
pub proof fn lemma_scans_end_on_boundary(bytes: Seq<u8>, from: int, end: int)
    requires
        valid_utf8(bytes),
        0 <= from <= end,
        boundary(bytes, from),
        boundary(bytes, end),
    ensures
        from <= token_end(bytes, from, end) <= end,
        from <= skip_whitespace(bytes, from, end) <= end,
        boundary(bytes, token_end(bytes, from, end)),
        boundary(bytes, skip_whitespace(bytes, from, end)),
    decreases end - from,
{
    lemma_token_end_on_boundary(bytes, from, end);
    if from < end && whitespace_len(bytes, from, end) > 0 {
        lemma_whitespace_ends_on_boundary(bytes, from, end);
        lemma_scans_end_on_boundary(bytes, from + whitespace_len(bytes, from, end), end);
    }
}

/// The end of a token is a boundary, wherever the token starts.
pub proof fn lemma_token_end_on_boundary(bytes: Seq<u8>, from: int, end: int)
    requires
        0 <= from <= end,
        boundary(bytes, end),
    ensures
        from <= token_end(bytes, from, end) <= end,
        boundary(bytes, token_end(bytes, from, end)),
    decreases end - from,
{
    if from < end && whitespace_len(bytes, from, end) == 0 {
        lemma_token_end_on_boundary(bytes, from + 1, end);
    }
}

/// The number of bytes of the white-space character that starts at `at`.
pub fn whitespace_at(bytes: &[u8], at: usize, end: usize) -> (n: usize)
    requires
        at < end <= bytes@.len(),
    ensures
        n == whitespace_len(bytes@, at as int, end as int),
{
    let first = bytes[at];
    if first == 0x20 || (0x09 <= first && first <= 0x0d) {
        1
    } else if end - at > 1 && first == 0xc2 && (bytes[at + 1] == 0x85 || bytes[at + 1] == 0xa0) {
        2
    } else if end - at > 2 {
        let second = bytes[at + 1];
        let third = bytes[at + 2];
        let wide = (first == 0xe1 && second == 0x9a && third == 0x80) || (first == 0xe2 && second
            == 0x80 && ((0x80 <= third && third <= 0x8a) || third == 0xa8 || third == 0xa9
            || third == 0xaf)) || (first == 0xe2 && second == 0x81 && third == 0x9f) || (first
            == 0xe3 && second == 0x80 && third == 0x80);
        if wide {
            3
        } else {
            0
        }
    } else {
        0
    }
}

/// Looks for the end of the token that starts at `from`.
pub fn find_token_end(bytes: &[u8], from: usize, end: usize) -> (at: usize)
    requires
        from <= end <= bytes@.len(),
    ensures
        at == token_end(bytes@, from as int, end as int),
        from <= at <= end,
{
    let mut at = from;
    while at < end
        invariant
            from <= at <= end <= bytes@.len(),
            token_end(bytes@, from as int, end as int) == token_end(bytes@, at as int, end as int),
        decreases end - at,
    {
        if whitespace_at(bytes, at, end) > 0 {
            return at;
        }
        at += 1;
    }
    at
}

/// Looks for the end of the run of white space that starts at `from`.
pub fn find_whitespace_end(bytes: &[u8], from: usize, end: usize) -> (at: usize)
    requires
        from <= end <= bytes@.len(),
    ensures
        at == skip_whitespace(bytes@, from as int, end as int),
        from <= at <= end,
{
    let mut at = from;
    while at < end
        invariant
            from <= at <= end <= bytes@.len(),
            skip_whitespace(bytes@, from as int, end as int) == skip_whitespace(
                bytes@,
                at as int,
                end as int,
            ),
        decreases end - at,
    {
        let n = whitespace_at(bytes, at, end);
        if n == 0 {
            return at;
        }
        at += n;
    }
    at
}

} // verus!
