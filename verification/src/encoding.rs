//! Facts about UTF-8 that the stored form of the list rests on: an ASCII
//! byte in an encoded text is always a character of its own.

use vstd::prelude::*;
use vstd::utf8::*;

verus! {

/// In the encoding of a scalar that is not ASCII every byte is 0x80 or above.
proof fn lemma_wide_scalar_bytes(c: u32)
    by (bit_vector)
    requires
        0x80 <= c <= 0x10FFFF,
    ensures
        (0xC0u8 | ((c >> 6) & 0x1F) as u8) >= 0x80,
        (0xE0u8 | ((c >> 12) & 0x0F) as u8) >= 0x80,
        (0xF0u8 | ((c >> 18) & 0x7) as u8) >= 0x80,
        (0x80u8 | (c & 0x3F) as u8) >= 0x80,
        (0x80u8 | ((c >> 6) & 0x3F) as u8) >= 0x80,
        (0x80u8 | ((c >> 12) & 0x3F) as u8) >= 0x80,
{
}

/// The encoding of an ASCII scalar is the one byte of the same value.
proof fn lemma_ascii_scalar_byte(c: u32)
    by (bit_vector)
    requires
        c <= 0x7F,
    ensures
        (c & 0x7F) as u8 == c,
{
}

/// The encoding of a character is never empty. If the character is ASCII it
/// is the one byte of the same value; otherwise all its bytes are 0x80 or
/// above.
pub proof fn lemma_encode_char(c: char)
    ensures
        encode_scalar(c as u32).len() > 0,
        (c as u32) < 0x80 ==> encode_scalar(c as u32).len() == 1 && encode_scalar(c as u32)[0]
            == c as u32,
        (c as u32) >= 0x80 ==> forall|i: int|
            0 <= i < encode_scalar(c as u32).len() ==> #[trigger] encode_scalar(c as u32)[i]
                >= 0x80,
{
    let s = c as u32;
    char_is_scalar(c);
    if s < 0x80 {
        lemma_ascii_scalar_byte(s);
    } else {
        lemma_wide_scalar_bytes(s);
    }
}

/// Encoding goes through concatenation.
pub proof fn lemma_encode_concat(a: Seq<char>, b: Seq<char>)
    ensures
        encode_utf8(a + b) == encode_utf8(a) + encode_utf8(b),
    decreases a.len(),
{
    if a.len() == 0 {
        assert(a + b =~= b);
        assert(encode_utf8(a) + encode_utf8(b) =~= encode_utf8(b));
    } else {
        lemma_encode_concat(a.drop_first(), b);
        assert((a + b).drop_first() =~= a.drop_first() + b);
        assert(encode_utf8(a + b) =~= encode_utf8(a) + encode_utf8(b));
    }
}

/// Two characters of the same number are the same character.
proof fn lemma_char_by_number(a: char, b: char)
    requires
        a as u32 == b as u32,
    ensures
        a == b,
{
    char_u32_cast(a, a as u32);
    char_u32_cast(b, b as u32);
}

/// An ASCII byte occurs in an encoded text only where the text has the
/// character of that value: the encoding of a text without the ASCII
/// character `c` holds no byte of the value of `c`.
pub proof fn lemma_ascii_byte_absent(chars: Seq<char>, c: char)
    requires
        (c as u32) < 0x80,
        forall|i: int| 0 <= i < chars.len() ==> chars[i] != c,
    ensures
        forall|j: int| 0 <= j < encode_utf8(chars).len() ==> encode_utf8(chars)[j] != c as u32,
    decreases chars.len(),
{
    if chars.len() > 0 {
        lemma_encode_char(chars[0]);
        lemma_ascii_byte_absent(chars.drop_first(), c);
        let head = encode_scalar(chars[0] as u32);
        let tail = encode_utf8(chars.drop_first());
        assert forall|j: int| 0 <= j < encode_utf8(chars).len() implies encode_utf8(chars)[j]
            != c as u32 by {
            if j < head.len() {
                assert(encode_utf8(chars)[j] == head[j]);
                if chars[0] as u32 == c as u32 {
                    lemma_char_by_number(chars[0], c);
                }
            } else {
                assert(encode_utf8(chars)[j] == tail[j - head.len()]);
            }
        }
    }
}

/// An encoded text ends in an ASCII byte only if the text ends in the
/// character of that value: the encoding of a text that does not end in the
/// ASCII character `c` does not end in a byte of the value of `c`.
pub proof fn lemma_last_byte(chars: Seq<char>, c: char)
    requires
        (c as u32) < 0x80,
        chars.len() > 0,
        chars.last() != c,
    ensures
        encode_utf8(chars).len() > 0,
        encode_utf8(chars).last() != c as u32,
{
    let front = chars.drop_last();
    let tail = seq![chars.last()];
    assert(chars =~= front + tail);
    lemma_encode_concat(front, tail);
    lemma_encode_char(chars.last());
    assert(tail.drop_first() =~= Seq::<char>::empty());
    assert(encode_utf8(Seq::<char>::empty()) =~= Seq::<u8>::empty());
    assert(encode_utf8(tail) =~= encode_scalar(chars.last() as u32));
    let e = encode_scalar(chars.last() as u32);
    assert(encode_utf8(chars).last() == e[e.len() - 1]);
    if chars.last() as u32 == c as u32 {
        lemma_char_by_number(chars.last(), c);
    }
}

/// A text that is not empty has an encoding that is not empty.
pub proof fn lemma_encoding_not_empty(chars: Seq<char>)
    requires
        chars.len() > 0,
    ensures
        encode_utf8(chars).len() > 0,
{
    lemma_encode_char(chars[0]);
}

} // verus!
