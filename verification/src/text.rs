//! Positions in a text, counted in characters, in UTF-8 bytes and in UTF-16
//! code units.
//!
//! CoreText counts in UTF-16 code units and the layout counts in UTF-8 bytes.
//! The model of a text is its sequence of characters: a character position `k`
//! stands at byte `byte_len(text.take(k))` and at code unit
//! `unit_len(text.take(k))`.

use vstd::prelude::*;
#[allow(unused_imports)]
use vstd::utf8::*;

verus! {

/// Bytes that the character takes in UTF-8.
pub open spec fn utf8_width(c: char) -> nat {
    if (c as u32) < 0x80 {
        1
    } else if (c as u32) < 0x800 {
        2
    } else if (c as u32) < 0x10000 {
        3
    } else {
        4
    }
}

/// Code units that the character takes in UTF-16.
pub open spec fn utf16_width(c: char) -> nat {
    if (c as u32) < 0x10000 {
        1
    } else {
        2
    }
}

/// Length of the text in UTF-8 bytes.
pub open spec fn byte_len(text: Seq<char>) -> nat
    decreases text.len(),
{
    if text.len() == 0 {
        0
    } else {
        byte_len(text.drop_last()) + utf8_width(text.last())
    }
}

/// Length of the text in UTF-16 code units.
pub open spec fn unit_len(text: Seq<char>) -> nat
    decreases text.len(),
{
    if text.len() == 0 {
        0
    } else {
        unit_len(text.drop_last()) + utf16_width(text.last())
    }
}

/// Position of the character that holds code unit `unit`; the number of
/// characters where the text ends at or before `unit`.
pub open spec fn char_at_unit(text: Seq<char>, unit: int) -> int
    decreases text.len(),
{
    if text.len() == 0 || unit >= unit_len(text) {
        text.len() as int
    } else if unit >= unit_len(text.drop_last()) {
        text.len() - 1
    } else {
        char_at_unit(text.drop_last(), unit)
    }
}

/// Byte at which character `k` of the text starts.
pub open spec fn byte_offset(text: Seq<char>, k: int) -> nat {
    byte_len(text.take(k))
}

/// For each code unit of the text the byte at which its character starts, and
/// after them the byte at which the text ends.
pub open spec fn unit_to_byte(text: Seq<char>) -> Seq<nat> {
    Seq::new(unit_len(text) + 1, |unit: int| byte_offset(text, char_at_unit(text, unit)))
}

/// Whether `map` holds, for each code unit of the text and for its end, the byte
/// that it stands for.
pub open spec fn is_unit_map(map: Seq<usize>, text: Seq<char>) -> bool {
    &&& map.len() == unit_to_byte(text).len()
    &&& forall|unit: int|
        #![trigger map[unit]]
        0 <= unit < map.len() ==> map[unit] == unit_to_byte(text)[unit]
}

/// Lengths of a text are the sums of the lengths of its two parts.
pub proof fn lemma_len_concat(a: Seq<char>, b: Seq<char>)
    ensures
        byte_len(a + b) == byte_len(a) + byte_len(b),
        unit_len(a + b) == unit_len(a) + unit_len(b),
    decreases b.len(),
{
    if b.len() == 0 {
        assert(a + b =~= a);
    } else {
        assert((a + b).drop_last() =~= a + b.drop_last());
        lemma_len_concat(a, b.drop_last());
    }
}

/// A later position stands at a later byte and at a later code unit.
pub proof fn lemma_offsets_increase(text: Seq<char>, j: int, k: int)
    requires
        0 <= j <= k <= text.len(),
    ensures
        byte_offset(text, j) <= byte_offset(text, k) <= byte_len(text),
        unit_len(text.take(j)) <= unit_len(text.take(k)) <= unit_len(text),
        j < k ==> byte_offset(text, j) < byte_offset(text, k),
        j < k ==> unit_len(text.take(j)) < unit_len(text.take(k)),
        byte_offset(text, k) == byte_offset(text, j) + byte_len(text.subrange(j, k)),
{
    assert(text.take(k) =~= text.take(j) + text.subrange(j, k));
    lemma_len_concat(text.take(j), text.subrange(j, k));
    assert(text =~= text.take(k) + text.skip(k));
    lemma_len_concat(text.take(k), text.skip(k));
}

/// The byte length is the length of the UTF-8 encoding.
pub proof fn lemma_byte_len_is_encoded_len(text: Seq<char>)
    ensures
        byte_len(text) == encode_utf8(text).len(),
    decreases text.len(),
{
    if text.len() > 0 {
        let first = seq![text[0]];
        let rest = text.drop_first();
        lemma_byte_len_is_encoded_len(rest);
        assert(text =~= first + rest);
        lemma_len_concat(first, rest);
        assert(first.drop_last() =~= Seq::<char>::empty());
        assert(byte_len(first) == utf8_width(text[0])) by {
            reveal_with_fuel(byte_len, 2);
        }
        char_is_scalar(text[0]);
    }
}

/// Code unit `unit` lies in the character that `char_at_unit` gives: that
/// character's units start at or before it and end after it.
pub proof fn law_unit_lies_in_its_char(text: Seq<char>, unit: int)
    requires
        0 <= unit < unit_len(text),
    ensures
        0 <= char_at_unit(text, unit) < text.len(),
        unit_len(text.take(char_at_unit(text, unit))) <= unit,
        unit < unit_len(text.take(char_at_unit(text, unit) + 1)),
    decreases text.len(),
{
    assert(text.take(text.len() as int) =~= text);
    assert(text.take(text.len() - 1) =~= text.drop_last());
    if unit < unit_len(text.drop_last()) {
        let k = char_at_unit(text, unit);
        law_unit_lies_in_its_char(text.drop_last(), unit);
        assert(text.drop_last().take(k) =~= text.take(k));
        assert(text.drop_last().take(k + 1) =~= text.take(k + 1));
    }
}

/// All code units of one character, both halves of a surrogate pair among
/// them, map to the byte at which that character starts.
pub proof fn law_units_of_a_char_share_its_byte(text: Seq<char>, k: int, unit: int)
    requires
        0 <= k < text.len(),
        unit_len(text.take(k)) <= unit < unit_len(text.take(k + 1)),
    ensures
        char_at_unit(text, unit) == k,
        unit_to_byte(text)[unit] == byte_offset(text, k),
{
    lemma_offsets_increase(text, k, k + 1);
    law_unit_lies_in_its_char(text, unit);
    let found = char_at_unit(text, unit);
    if found < k {
        lemma_offsets_increase(text, found + 1, k);
    } else if found > k {
        lemma_offsets_increase(text, k + 1, found);
    }
}

/// A later code unit lies in the same character or in a later one.
pub proof fn lemma_char_at_unit_increases(text: Seq<char>, u: int, v: int)
    requires
        0 <= u <= v,
    ensures
        0 <= char_at_unit(text, u) <= char_at_unit(text, v) <= text.len(),
    decreases text.len(),
{
    if text.len() > 0 {
        lemma_char_at_unit_increases(text.drop_last(), u, v);
    }
}

/// The map from code units to bytes never goes back: a later code unit has the
/// same byte or a later one, and the last entry is the length of the text.
pub proof fn law_unit_to_byte_increases(text: Seq<char>, u: int, v: int)
    requires
        0 <= u <= v <= unit_len(text),
    ensures
        unit_to_byte(text)[u] <= unit_to_byte(text)[v] <= byte_len(text),
        unit_to_byte(text).last() == byte_len(text),
{
    lemma_char_at_unit_increases(text, u, v);
    lemma_offsets_increase(text, char_at_unit(text, u), char_at_unit(text, v));
    assert(text.take(text.len() as int) =~= text);
}

/// The encoding of a text is that of its first part, then that of the rest.
proof fn lemma_encode_concat(a: Seq<char>, b: Seq<char>)
    ensures
        encode_utf8(a + b) == encode_utf8(a) + encode_utf8(b),
    decreases a.len(),
{
    if a.len() == 0 {
        assert(a + b =~= b);
        assert(encode_utf8(a) + encode_utf8(b) =~= encode_utf8(b));
    } else {
        lemma_encode_concat(a.drop_first(), b);
        assert((a + b).drop_first() =~= a.drop_first() + b);
        assert(encode_utf8(a + b) =~= encode_utf8(a) + encode_utf8(b));
    }
}

/// Cut at the byte where character `k` starts, an encoded text falls into the
/// encodings of the characters before `k` and of those from `k` on.
pub proof fn lemma_split(text: Seq<char>, k: int)
    requires
        0 <= k <= text.len(),
    ensures
        encode_utf8(text).subrange(0, byte_offset(text, k) as int) == encode_utf8(text.take(k)),
        encode_utf8(text).subrange(
            byte_offset(text, k) as int,
            encode_utf8(text).len() as int,
        ) == encode_utf8(text.skip(k)),
{
    assert(text =~= text.take(k) + text.skip(k));
    lemma_encode_concat(text.take(k), text.skip(k));
    lemma_byte_len_is_encoded_len(text.take(k));
    assert(encode_utf8(text).subrange(0, byte_offset(text, k) as int) =~= encode_utf8(
        text.take(k),
    ));
    assert(encode_utf8(text).subrange(
        byte_offset(text, k) as int,
        encode_utf8(text).len() as int,
    ) =~= encode_utf8(text.skip(k)));
}

/// A character starts on a character boundary of the encoded text.
pub proof fn law_byte_offset_is_char_boundary(text: Seq<char>, k: int)
    requires
        0 <= k <= text.len(),
    ensures
        is_char_boundary(encode_utf8(text), byte_offset(text, k) as int),
    decreases k,
{
    encode_utf8_valid_utf8(text);
    lemma_byte_len_is_encoded_len(text);
    lemma_offsets_increase(text, 0, k);
    if k > 0 {
        let first = seq![text[0]];
        let rest = text.drop_first();
        encode_utf8_first_scalar(text);
        assert(pop_first_scalar(encode_utf8(text)) =~= encode_utf8(rest));
        assert(text.take(k) =~= first + rest.take(k - 1));
        lemma_len_concat(first, rest.take(k - 1));
        assert(byte_len(first) == utf8_width(text[0])) by {
            assert(first.drop_last() =~= Seq::<char>::empty());
            reveal_with_fuel(byte_len, 2);
        }
        char_is_scalar(text[0]);
        law_byte_offset_is_char_boundary(rest, k - 1);
    }
}

/// Every entry of the map from code units to bytes is a character boundary of
/// the encoded text.
pub proof fn law_unit_to_byte_is_char_boundary(text: Seq<char>, unit: int)
    requires
        0 <= unit <= unit_len(text),
    ensures
        is_char_boundary(encode_utf8(text), unit_to_byte(text)[unit] as int),
{
    lemma_char_at_unit_increases(text, unit, unit);
    law_byte_offset_is_char_boundary(text, char_at_unit(text, unit));
}

/// Bytes that the character takes in UTF-8.
pub(crate) fn len_utf8(c: char) -> (n: usize)
    ensures
        n == utf8_width(c),
{
    let code: u32 = c as u32;
    if code < 0x80 {
        1
    } else if code < 0x800 {
        2
    } else if code < 0x10000 {
        3
    } else {
        4
    }
}

/// Code units that the character takes in UTF-16.
fn len_utf16(c: char) -> (n: usize)
    ensures
        n == utf16_width(c),
{
    let code: u32 = c as u32;
    if code < 0x10000 {
        1
    } else {
        2
    }
}

/// Maps each UTF-16 code-unit offset into `text` to the UTF-8 byte offset of
/// the character containing that code unit.
pub fn utf16_to_utf8_map(text: &str) -> (map: Vec<usize>)
    ensures
        is_unit_map(map@, text@),
{
    let ghost s = text@;
    let total: usize = text.as_bytes().len();
    proof {
        lemma_byte_len_is_encoded_len(s);
    }
    let mut map: Vec<usize> = Vec::new();
    let mut byte: usize = 0;
    for ch in it: text.chars()
        invariant
            s == text@,
            it.seq() == s,
            byte_len(s) <= usize::MAX,
            byte == byte_offset(s, it.index()),
            map@.len() == unit_len(s.take(it.index())),
            forall|unit: int|
                #![trigger map@[unit]]
                0 <= unit < map@.len() ==> map@[unit] == byte_offset(
                    s,
                    char_at_unit(s.take(it.index()), unit),
                ),
    {
        let ghost k = it.index();
        let ghost done = map@;
        let width: usize = len_utf16(ch);
        for _unit in 0..width
            invariant
                done.len() <= map@.len(),
                map@ == done + Seq::new((map@.len() - done.len()) as nat, |u: int| byte),
                map@.len() == done.len() + _unit,
        {
            map.push(byte);
        }
        proof {
            assert(s.take(k + 1).drop_last() =~= s.take(k));
            assert(s.take(k + 1).last() == ch);
            lemma_offsets_increase(s, k + 1, s.len() as int);
        }
        byte = byte + len_utf8(ch);
    }
    proof {
        assert(s.take(s.len() as int) =~= s);
    }
    map.push(byte);
    map
}

/// The characters of `text` from position `from` to position `to`, which stand
/// at the bytes `start` and `end`.
pub(crate) fn byte_slice<'a>(
    text: &'a str,
    start: usize,
    end: usize,
    Ghost(from): Ghost<int>,
    Ghost(to): Ghost<int>,
) -> (part: &'a str)
    requires
        0 <= from <= to <= text@.len(),
        start == byte_offset(text@, from),
        end == byte_offset(text@, to),
    ensures
        part@ == text@.subrange(from, to),
{
    let ghost s = text@;
    proof {
        law_byte_offset_is_char_boundary(s, to);
        lemma_split(s, to);
    }
    let (head, _) = text.split_at(end);
    proof {
        encode_utf8_decode_utf8(s.take(to));
        encode_utf8_decode_utf8(head@);
        assert(head@ == s.take(to));
        assert(s.take(to).take(from) =~= s.take(from));
        law_byte_offset_is_char_boundary(s.take(to), from);
        lemma_split(s.take(to), from);
    }
    let (_, part) = head.split_at(start);
    proof {
        encode_utf8_decode_utf8(s.take(to).skip(from));
        encode_utf8_decode_utf8(part@);
        assert(s.take(to).skip(from) =~= s.subrange(from, to));
    }
    part
}

} // verus!
