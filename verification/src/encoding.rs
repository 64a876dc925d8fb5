//! Facts about the UTF-8 encoding of a text that the splitting into lines rests
//! on: a character below 0x80 is encoded as one byte of its own value, and no
//! byte of any other character lies below 0x80. So a line feed or a carriage
//! return is found among the bytes exactly where it stands among the
//! characters.

use vstd::prelude::*;
use vstd::utf8::*;

verus! {

proof fn lemma_low_scalar_byte(s: u32)
    by (bit_vector)
    requires
        s <= 0x7F,
    ensures
        ((s & 0x7F) as u8) as u32 == s,
{
}

proof fn lemma_high_bytes(x: u8)
    by (bit_vector)
    ensures
        0xC0u8 | x >= 0x80,
        0xE0u8 | x >= 0x80,
        0xF0u8 | x >= 0x80,
        0x80u8 | x >= 0x80,
{
}

/// The bytes of one character: at least one; a character below 0x80 is the one
/// byte of its value; every byte of another character is 0x80 or more.
pub proof fn lemma_encode_scalar_bytes(c: char)
    ensures
        ({
            let bytes = encode_scalar(c as u32);
            &&& bytes.len() >= 1
            &&& (c as u32) < 0x80 ==> bytes.len() == 1 && bytes[0] as u32 == c as u32
            &&& (c as u32) >= 0x80 ==> forall|i: int|
                0 <= i < bytes.len() ==> #[trigger] bytes[i] >= 0x80
        }),
{
    let s = c as u32;
    char_is_scalar(c);
    if has_width_1_encoding(s) {
        lemma_low_scalar_byte(s);
    } else if has_width_2_encoding(s) {
        lemma_high_bytes(((s >> 6) & 0x1F) as u8);
        lemma_high_bytes((s & 0x3F) as u8);
    } else if has_width_3_encoding(s) {
        lemma_high_bytes(((s >> 12) & 0x0F) as u8);
        lemma_high_bytes(((s >> 6) & 0x3F) as u8);
        lemma_high_bytes((s & 0x3F) as u8);
    } else {
        lemma_high_bytes(((s >> 18) & 0x7) as u8);
        lemma_high_bytes(((s >> 12) & 0x3F) as u8);
        lemma_high_bytes(((s >> 6) & 0x3F) as u8);
        lemma_high_bytes((s & 0x3F) as u8);
    }
}

/// The encoding of two texts in a row is the two encodings in a row.
pub proof fn lemma_encode_concat(x: Seq<char>, y: Seq<char>)
    ensures
        encode_utf8(x + y) == encode_utf8(x) + encode_utf8(y),
    decreases x.len(),
{
    if x.len() > 0 {
        assert((x + y).drop_first() == x.drop_first() + y);
        lemma_encode_concat(x.drop_first(), y);
    }
}

/// A text is empty exactly where its encoding is.
pub proof fn lemma_encode_empty(text: Seq<char>)
    ensures
        encode_utf8(text).len() == 0 <==> text.len() == 0,
{
    if text.len() > 0 {
        lemma_encode_scalar_bytes(text[0]);
    }
}

/// Texts with the same encoding are the same text.
pub proof fn lemma_encode_injective(x: Seq<char>, y: Seq<char>)
    requires
        encode_utf8(x) == encode_utf8(y),
    ensures
        x == y,
{
    encode_utf8_decode_utf8(x);
    encode_utf8_decode_utf8(y);
}

/// Where a character below 0x80 stands nowhere in a text, its byte stands nowhere
/// in the encoding.
pub proof fn lemma_byte_absent(text: Seq<char>, mark: char)
    requires
        (mark as u32) < 0x80,
        forall|i: int| 0 <= i < text.len() ==> text[i] != mark,
    ensures
        forall|i: int|
            0 <= i < encode_utf8(text).len() ==> (#[trigger] encode_utf8(text)[i]) as u32
                != mark as u32,
    decreases text.len(),
{
    if text.len() > 0 {
        let first = encode_scalar(text[0] as u32);
        let rest = text.drop_first();
        lemma_encode_scalar_bytes(text[0]);
        assert(text[0] as u32 != mark as u32) by {
            char_u32_cast(text[0], text[0] as u32);
        }
        assert(forall|i: int| 0 <= i < rest.len() ==> rest[i] == text[i + 1]);
        lemma_byte_absent(rest, mark);
        assert forall|i: int| 0 <= i < encode_utf8(text).len() implies (#[trigger] encode_utf8(
            text,
        )[i]) as u32 != mark as u32 by {
            if i >= first.len() {
                assert(encode_utf8(text)[i] == encode_utf8(rest)[i - first.len()]);
            }
        }
    }
}

/// Where a character below 0x80 stands in a text, its byte stands in the encoding,
/// between the encoding of what comes before it and the encoding of what comes
/// after it.
pub proof fn lemma_byte_present(text: Seq<char>, at: int)
    requires
        0 <= at < text.len(),
        (text[at] as u32) < 0x80,
    ensures
        ({
            let bytes = encode_utf8(text);
            let before = encode_utf8(text.take(at));
            let after = encode_utf8(text.skip(at + 1));
            &&& bytes.len() == before.len() + 1 + after.len()
            &&& bytes.subrange(0, before.len() as int) == before
            &&& bytes[before.len() as int] as u32 == text[at] as u32
            &&& bytes.subrange(before.len() as int + 1, bytes.len() as int) == after
        }),
{
    let head = text.take(at);
    let tail = text.skip(at);
    assert(text == head + tail);
    lemma_encode_concat(head, tail);
    assert(tail.drop_first() == text.skip(at + 1));
    lemma_encode_scalar_bytes(text[at]);
}

} // verus!
