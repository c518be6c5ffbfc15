//! The UTF-16 encoding of a text, in which CoreText counts.

use vstd::prelude::*;

#[allow(unused_imports)]
use crate::text;

verus! {

/// The UTF-16 code units of a character.
pub open spec fn encode_char(c: char) -> Seq<u16> {
    let code = c as int;
    if code < 0x10000 {
        seq![code as u16]
    } else {
        seq![
            (0xD800 + (code - 0x10000) / 0x400) as u16,
            (0xDC00 + (code - 0x10000) % 0x400) as u16,
        ]
    }
}

/// The UTF-16 encoding of a text.
pub open spec fn encode_utf16(text: Seq<char>) -> Seq<u16>
    decreases text.len(),
{
    if text.len() == 0 {
        seq![]
    } else {
        encode_utf16(text.drop_last()) + encode_char(text.last())
    }
}

/// The code units of a character are those from which UTF-16 reads it back: one
/// unit that is no surrogate and has the character's own number, or a high and
/// a low surrogate whose low ten bits each make up the number above `0x10000`.
pub proof fn law_units_read_back_as_the_char(c: char)
    ensures
        encode_char(c).len() == 1 || encode_char(c).len() == 2,
        encode_char(c).len() == 1 ==> {
            &&& encode_char(c)[0] as int == c as int
            &&& !(0xD800 <= encode_char(c)[0] <= 0xDFFF)
        },
        encode_char(c).len() == 2 ==> {
            let high = encode_char(c)[0] as int;
            let low = encode_char(c)[1] as int;
            &&& 0xD800 <= high <= 0xDBFF
            &&& 0xDC00 <= low <= 0xDFFF
            &&& 0x10000 + (high - 0xD800) * 0x400 + (low - 0xDC00) == c as int
        },
{
}

/// A character from `0x10000` on takes two code units, every other one, and that
/// is how many its encoding has.
pub proof fn law_width_is_encoded_width(c: char)
    ensures
        c as int >= 0x10000 ==> text::utf16_width(c) == 2,
        (c as int) < 0x10000 ==> text::utf16_width(c) == 1,
        text::utf16_width(c) == encode_char(c).len(),
{
}

/// A text takes as many code units as its UTF-16 encoding has.
pub proof fn law_unit_len_is_encoded_len(text: Seq<char>)
    ensures
        text::unit_len(text) == encode_utf16(text).len(),
    decreases text.len(),
{
    if text.len() > 0 {
        law_unit_len_is_encoded_len(text.drop_last());
        law_width_is_encoded_width(text.last());
    }
}

/// The encoding of a text is that of its first part, then that of the rest.
pub proof fn law_encode_concat(a: Seq<char>, b: Seq<char>)
    ensures
        encode_utf16(a + b) == encode_utf16(a) + encode_utf16(b),
    decreases b.len(),
{
    if b.len() == 0 {
        assert(a + b =~= a);
        assert(encode_utf16(a) + encode_utf16(b) =~= encode_utf16(a));
    } else {
        assert((a + b).drop_last() =~= a + b.drop_last());
        law_encode_concat(a, b.drop_last());
        assert(encode_utf16(a + b) =~= encode_utf16(a) + encode_utf16(b));
    }
}

} // verus!
