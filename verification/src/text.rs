//! Decoding bytes to text, with substitution for what is not UTF-8.
//!
//! Decoding never fails. Bytes that are valid UTF-8 decode to the characters
//! they encode; anything else decodes to text in which every invalid
//! sequence is replaced by U+FFFD, as the standard library does it.

use crate::lines::{first_line_len, lemma_line_end_bounds, lemma_line_end_shape, split_lines, NEWLINE};
use vstd::prelude::*;
use vstd::utf8::*;

verus! {

/// What `String::from_utf8_lossy` makes of bytes that are not valid UTF-8.
pub uninterp spec fn substituted_utf8(bytes: Seq<u8>) -> Seq<char>;

/// The text that `bytes` decode to under the substitution policy.
pub open spec fn lossy_decode(bytes: Seq<u8>) -> Seq<char> {
    if valid_utf8(bytes) {
        decode_utf8(bytes)
    } else {
        substituted_utf8(bytes)
    }
}

/// Each line decoded by itself.
pub open spec fn decode_lines(lines: Seq<Seq<u8>>) -> Seq<Seq<char>> {
    lines.map_values(|line: Seq<u8>| lossy_decode(line))
}

/// The text of a stream: its lines, decoded one by one and joined.
pub open spec fn decoded_text(bytes: Seq<u8>) -> Seq<char> {
    decode_lines(split_lines(bytes)).flatten()
}

/// Calls `String::from_utf8_lossy`. Trusted: valid UTF-8 comes back as the
/// text it encodes, and any other input as the text named by
/// `substituted_utf8`.
#[verifier::external_body]
fn from_utf8_lossy(bytes: &[u8]) -> (text: String)
    ensures
        valid_utf8(bytes@) ==> text@ == decode_utf8(bytes@),
        !valid_utf8(bytes@) ==> text@ == substituted_utf8(bytes@),
{
    String::from_utf8_lossy(bytes).into_owned()
}

/// Decodes `bytes` under the substitution policy. Valid UTF-8 decodes to
/// text that encodes to the same bytes again.
pub fn decode(bytes: &[u8]) -> (text: String)
    ensures
        text@ == lossy_decode(bytes@),
        valid_utf8(bytes@) ==> encode_utf8(text@) == bytes@,
{
    proof {
        if valid_utf8(bytes@) {
            decode_utf8_encode_utf8(bytes@);
        }
    }
    from_utf8_lossy(bytes)
}

/// Encoding distributes over concatenation.
pub proof fn lemma_encode_add(a: Seq<char>, b: Seq<char>)
    ensures
        encode_utf8(a + b) == encode_utf8(a) + encode_utf8(b),
    decreases a.len(),
{
    if a.len() == 0 {
        assert(a + b =~= b);
        assert(encode_utf8(a) + encode_utf8(b) =~= encode_utf8(b));
    } else {
        assert((a + b).drop_first() =~= a.drop_first() + b);
        lemma_encode_add(a.drop_first(), b);
        assert(encode_utf8(a + b) =~= encode_utf8(a) + encode_utf8(b));
    }
}

/// Every character takes at least one byte, and exactly one when it is
/// ASCII: a text is as long in bytes as in characters exactly when it is
/// all ASCII, and longer otherwise.
pub proof fn lemma_encode_len(s: Seq<char>)
    ensures
        s.len() <= encode_utf8(s).len(),
        is_ascii_chars(s) <==> encode_utf8(s).len() == s.len(),
    decreases s.len(),
{
    if s.len() > 0 {
        let rest = s.drop_first();
        lemma_encode_len(rest);
        char_is_scalar(s[0]);
        if is_ascii_chars(s) {
            assert forall|i: int| 0 <= i < rest.len() implies '\0' <= #[trigger] rest[i]
                <= '\u{7f}' by {
                assert(rest[i] == s[i + 1]);
            }
        }
        if encode_utf8(s).len() == s.len() {
            assert(encode_scalar(s[0] as u32).len() == 1);
            assert(encode_utf8(rest).len() == rest.len());
            assert(has_width_1_encoding(s[0] as u32));
            assert forall|i: int| 0 <= i < s.len() implies '\0' <= #[trigger] s[i]
                <= '\u{7f}' by {
                if i > 0 {
                    assert(s[i] == rest[i - 1]);
                } else {
                    let c = s[0];
                    char_u32_cast(c, c as u32);
                }
            }
        }
    }
}

/// True when every byte of `bytes` is ASCII.
pub open spec fn is_ascii_bytes(bytes: Seq<u8>) -> bool {
    forall|i: int| 0 <= i < bytes.len() ==> #[trigger] bytes[i] <= 0x7f
}

/// ASCII is valid UTF-8.
pub proof fn lemma_ascii_is_valid(bytes: Seq<u8>)
    requires
        is_ascii_bytes(bytes),
    ensures
        valid_utf8(bytes),
{
    assert(bytes.subrange(0, 0) =~= Seq::<u8>::empty());
    assert(partial_valid_utf8(bytes, 0));
    assert forall|i: int| 0 <= i < bytes.len() implies #[trigger] is_leading_byte_width_1(
        bytes[i],
    ) by {
        assert(bytes[i] <= 0x7f);
    }
    partial_valid_utf8_extend_ascii_block(bytes, 0, bytes.len() as int);
    assert(bytes.subrange(0, bytes.len() as int) =~= bytes);
}

/// Valid UTF-8 decodes to as many characters as it has bytes exactly when
/// all of it is ASCII, and to fewer otherwise.
pub proof fn lemma_decode_len(bytes: Seq<u8>)
    requires
        valid_utf8(bytes),
    ensures
        decode_utf8(bytes).len() <= bytes.len(),
        decode_utf8(bytes).len() == bytes.len() <==> is_ascii_bytes(bytes),
{
    let text = decode_utf8(bytes);
    decode_utf8_encode_utf8(bytes);
    lemma_encode_len(text);
    if is_ascii_chars(text) {
        is_ascii_chars_encode_utf8(text);
        assert forall|i: int| 0 <= i < bytes.len() implies #[trigger] bytes[i] <= 0x7f by {
            assert(text[i] as u8 == bytes[i]);
            assert('\0' <= text[i] <= '\u{7f}');
        }
    }
    if is_ascii_bytes(bytes) {
        lemma_decode_ascii(bytes);
    }
}

/// ASCII decodes byte by byte.
proof fn lemma_decode_ascii(bytes: Seq<u8>)
    requires
        valid_utf8(bytes),
        is_ascii_bytes(bytes),
    ensures
        decode_utf8(bytes).len() == bytes.len(),
    decreases bytes.len(),
{
    if bytes.len() > 0 {
        assert(bytes[0] <= 0x7f);
        let rest = pop_first_scalar(bytes);
        assert(rest =~= bytes.subrange(1, bytes.len() as int));
        assert forall|i: int| 0 <= i < rest.len() implies #[trigger] rest[i] <= 0x7f by {
            assert(rest[i] == bytes[i + 1]);
        }
        lemma_decode_ascii(rest);
    }
}

/// In valid UTF-8 a character starts right after every ASCII byte.
pub proof fn lemma_boundary_after_ascii(s: Seq<u8>, i: int)
    requires
        valid_utf8(s),
        0 <= i < s.len(),
        s[i] <= 0x7f,
    ensures
        is_char_boundary(s, i + 1),
    decreases s.len(),
{
    let width = length_of_first_scalar(s);
    let rest = pop_first_scalar(s);
    if i < width {
        assert(i == 0);
        assert(is_char_boundary(rest, 0));
    } else {
        assert(rest[i - width] == s[i]);
        lemma_boundary_after_ascii(rest, i - width);
    }
}

/// A line boundary of valid UTF-8 falls between two characters.
pub proof fn lemma_first_line_boundary(s: Seq<u8>)
    requires
        valid_utf8(s),
        s.len() > 0,
    ensures
        is_char_boundary(s, first_line_len(s)),
{
    let n = first_line_len(s);
    lemma_line_end_bounds(s, 0);
    lemma_line_end_shape(s, 0);
    if s[n - 1] == NEWLINE {
        lemma_boundary_after_ascii(s, n - 1);
    } else {
        is_char_boundary_start_end_of_seq(s);
    }
}

/// Valid UTF-8 decodes line by line to the text it encodes.
pub proof fn lemma_decoded_text_valid(bytes: Seq<u8>)
    requires
        valid_utf8(bytes),
    ensures
        decoded_text(bytes) == decode_utf8(bytes),
        forall|i: int|
            0 <= i < split_lines(bytes).len() ==> valid_utf8(#[trigger] split_lines(bytes)[i]),
    decreases bytes.len(),
{
    if bytes.len() == 0 {
        assert(decoded_text(bytes) =~= decode_utf8(bytes));
    } else {
        let n = first_line_len(bytes);
        let head = bytes.take(n);
        let tail = bytes.skip(n);
        lemma_line_end_bounds(bytes, 0);
        lemma_first_line_boundary(bytes);
        valid_utf8_split(bytes, n);
        decode_utf8_split(bytes, n);
        lemma_decoded_text_valid(tail);
        let lines = decode_lines(split_lines(bytes));
        assert(lines.first() == decode_utf8(head));
        assert(lines.drop_first() =~= decode_lines(split_lines(tail)));
        assert forall|i: int| 0 <= i < split_lines(bytes).len() implies valid_utf8(
            #[trigger] split_lines(bytes)[i],
        ) by {
            if i > 0 {
                assert(split_lines(bytes)[i] == split_lines(tail)[i - 1]);
            }
        }
    }
}

/// Round trip: the text of a valid UTF-8 stream encodes to the stream
/// itself, byte for byte.
pub proof fn lemma_decoded_text_roundtrip(bytes: Seq<u8>)
    requires
        valid_utf8(bytes),
    ensures
        encode_utf8(decoded_text(bytes)) == bytes,
{
    lemma_decoded_text_valid(bytes);
    decode_utf8_encode_utf8(bytes);
}

} // verus!
