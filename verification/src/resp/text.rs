//! Facts on texts and their UTF-8 bytes that the codec rests on.

use vstd::prelude::*;
use super::wire::crlf_at;
use vstd::utf8::{
    char_is_scalar, char_u32_cast, encode_scalar, encode_utf8, is_ascii_chars,
    is_ascii_chars_encode_utf8,
};

verus! {

/// The UTF-8 bytes of a concatenation are the concatenation of the UTF-8 bytes.
pub proof fn lemma_encode_utf8_concat(a: Seq<char>, b: Seq<char>)
    ensures
        encode_utf8(a + b) == encode_utf8(a) + encode_utf8(b),
    decreases a.len(),
{
    if a.len() == 0 {
        assert(a + b =~= b);
        assert(encode_utf8(a) + encode_utf8(b) =~= encode_utf8(b));
    } else {
        lemma_encode_utf8_concat(a.drop_first(), b);
        assert((a + b).drop_first() =~= a.drop_first() + b);
        assert(encode_utf8(a + b) =~= encode_scalar(a[0] as u32) + (encode_utf8(a.drop_first())
            + encode_utf8(b)));
        assert(encode_utf8(a) + encode_utf8(b) =~= encode_scalar(a[0] as u32) + (encode_utf8(
            a.drop_first(),
        ) + encode_utf8(b)));
    }
}

/// An ASCII text is encoded byte for character.
pub proof fn lemma_ascii_bytes(text: Seq<char>, bytes: Seq<u8>)
    requires
        is_ascii_chars(text),
        bytes.len() == text.len(),
        forall|i: int| 0 <= i < text.len() ==> #[trigger] text[i] as u8 == bytes[i],
    ensures
        encode_utf8(text) == bytes,
{
    is_ascii_chars_encode_utf8(text);
    assert(encode_utf8(text) =~= bytes);
}

/// True when a carriage return stands at index `i` of `text`, directly
/// before a line feed.
pub open spec fn line_break_at(text: Seq<char>, i: int) -> bool {
    0 <= i && i + 1 < text.len() && text[i] == '\r' && text[i + 1] == '\n'
}

/// The bytes of one character: a single byte below 128, which is the
/// character's own number, or two to four bytes from 128 on.
proof fn lemma_scalar_bytes(c: char)
    ensures
        ({
            let bytes = encode_scalar(c as u32);
            &&& 1 <= bytes.len() <= 4
            &&& bytes.len() == 1 ==> bytes[0] == c as u32
            &&& bytes.len() > 1 ==> forall|j: int| 0 <= j < bytes.len() ==> #[trigger] bytes[j] >= 128
        }),
{
    let v = c as u32;
    char_is_scalar(c);
    assert(v <= 0x7F ==> (v & 0x7F) as u8 == v) by (bit_vector);
    assert((0xC0u8 | ((v >> 6) & 0x1F) as u8) >= 128) by (bit_vector);
    assert((0xE0u8 | ((v >> 12) & 0x0F) as u8) >= 128) by (bit_vector);
    assert((0xF0u8 | ((v >> 18) & 0x7) as u8) >= 128) by (bit_vector);
    assert((0x80u8 | (v & 0x3F) as u8) >= 128) by (bit_vector);
    assert((0x80u8 | ((v >> 6) & 0x3F) as u8) >= 128) by (bit_vector);
    assert((0x80u8 | ((v >> 12) & 0x3F) as u8) >= 128) by (bit_vector);
}

/// The first byte of a text's encoding is below 128 only where it is the
/// text's first character.
proof fn lemma_first_byte(text: Seq<char>)
    requires
        encode_utf8(text).len() > 0,
    ensures
        text.len() > 0,
        encode_utf8(text)[0] < 128 ==> encode_utf8(text)[0] == text[0] as u32 && encode_utf8(
            text,
        ) == seq![encode_utf8(text)[0]] + encode_utf8(text.drop_first()),
{
    lemma_scalar_bytes(text[0]);
    let bytes = encode_scalar(text[0] as u32);
    assert(encode_utf8(text)[0] == bytes[0]);
    if bytes[0] < 128 {
        assert(bytes =~= seq![bytes[0]]);
    }
}

/// A line terminator among the bytes of a text comes from a line break in the text.
proof fn lemma_crlf_comes_from_text(text: Seq<char>, i: int)
    requires
        crlf_at(encode_utf8(text), i),
    ensures
        exists|k: int| line_break_at(text, k),
    decreases text.len(),
{
    assert(text.len() > 0);
    lemma_scalar_bytes(text[0]);
    let first = encode_scalar(text[0] as u32);
    let rest = text.drop_first();
    let bytes = encode_utf8(text);
    assert(bytes == first + encode_utf8(rest));
    if i >= first.len() {
        assert(bytes[i] == encode_utf8(rest)[i - first.len()]);
        assert(bytes[i + 1] == encode_utf8(rest)[i + 1 - first.len()]);
        lemma_crlf_comes_from_text(rest, i - first.len());
        let k = choose|k: int| line_break_at(rest, k);
        assert(line_break_at(text, k + 1));
    } else {
        assert(bytes[i] == first[i]);
        assert(first.len() == 1);
        assert(bytes[1] == encode_utf8(rest)[0]);
        lemma_first_byte(rest);
        assert(text[0] as u32 == 13 && rest[0] as u32 == 10);
        char_u32_cast(text[0], 13u32);
        char_u32_cast('\r', 13u32);
        char_u32_cast(rest[0], 10u32);
        char_u32_cast('\n', 10u32);
        assert(text[0] == '\r' && text[1] == '\n');
        assert(line_break_at(text, 0));
    }
}

/// A text without a line break has no line terminator among its bytes.
pub proof fn lemma_text_is_a_line(text: Seq<char>)
    requires
        forall|k: int| !line_break_at(text, k),
    ensures
        forall|i: int| !crlf_at(encode_utf8(text), i),
{
    assert forall|i: int| !crlf_at(encode_utf8(text), i) by {
        if crlf_at(encode_utf8(text), i) {
            lemma_crlf_comes_from_text(text, i);
        }
    }
}

} // verus!
