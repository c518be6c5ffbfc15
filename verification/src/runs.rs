//! The glyph runs of a CoreText line, and the part of the text that each covers.

use vstd::prelude::*;

use crate::font::CTFontInfo;
#[allow(unused_imports)]
use crate::text;
use crate::text::{byte_slice, len_utf8};

verus! {

/// A glyph run as CoreText gives it.
#[derive(Debug)]
pub struct GlyphRun<N> {
    /// What CoreText tells of the run's font, where the run names one.
    pub font: Option<CTFontInfo<N>>,
    /// Glyph numbers, in visual order.
    pub glyphs: Vec<u16>,
    /// The x and y position of each glyph in the line.
    pub positions: Vec<(N, N)>,
    /// For each glyph the UTF-16 code unit of the text that it stands for. In a
    /// run from right to left they do not increase.
    pub string_indices: Vec<isize>,
}

/// A glyph of a shaped run.
#[derive(Clone, Copy, Debug, PartialEq)]
pub struct Glyph<N> {
    pub id: u32,
    pub x: N,
    pub y: N,
    /// Where the glyph's advance ends: at the x position of the next glyph of
    /// the line, for the last glyph at the width of the line.
    pub end_x: N,
    /// Byte offset from the start of the run's text to the glyph's character.
    pub offset: usize,
}

impl<N> GlyphRun<N> {
    /// Number of glyphs of which number, position and code unit are all given.
    pub open spec fn count(self) -> int {
        let known = if self.glyphs@.len() < self.positions@.len() {
            self.glyphs@.len()
        } else {
            self.positions@.len()
        };
        if known < self.string_indices@.len() {
            known as int
        } else {
            self.string_indices@.len() as int
        }
    }

    /// The code units of those glyphs.
    pub open spec fn indices(self) -> Seq<isize> {
        self.string_indices@.take(self.count())
    }

    /// Whether the run becomes a run of the layout: it names a font and has
    /// glyphs.
    pub open spec fn is_kept(self) -> bool {
        self.font is Some && self.count() > 0
    }

    /// Number of glyphs of which number, position and code unit are all given.
    pub(crate) fn glyph_count(&self) -> (count: usize)
        ensures
            count == self.count(),
    {
        let mut count: usize = self.glyphs.len();
        if self.positions.len() < count {
            count = self.positions.len();
        }
        if self.string_indices.len() < count {
            count = self.string_indices.len();
        }
        count
    }
}

/// The least of the code units.
pub open spec fn least(indices: Seq<isize>) -> isize
    recommends
        indices.len() > 0,
    decreases indices.len(),
{
    if indices.len() <= 1 || indices.last() < least(indices.drop_last()) {
        indices.last()
    } else {
        least(indices.drop_last())
    }
}

/// The greatest of the code units.
pub open spec fn greatest(indices: Seq<isize>) -> isize
    recommends
        indices.len() > 0,
    decreases indices.len(),
{
    if indices.len() <= 1 || indices.last() > greatest(indices.drop_last()) {
        indices.last()
    } else {
        greatest(indices.drop_last())
    }
}

/// The character at which the text of a run starts: the one that holds the
/// least code unit, the end of the text where that unit stands there, and the
/// first character where that unit is neither in the text nor at its end.
pub open spec fn first_char(item_text: Seq<char>, indices: Seq<isize>) -> int {
    if 0 <= least(indices) <= text::unit_len(item_text) {
        text::char_at_unit(item_text, least(indices) as int)
    } else {
        0
    }
}

/// The character before which the text of a run ends: the one after that which
/// holds the greatest code unit, or the end of the text where that unit is not
/// in the text.
pub open spec fn end_char(item_text: Seq<char>, indices: Seq<isize>) -> int {
    if 0 <= greatest(indices) < text::unit_len(item_text) {
        text::char_at_unit(item_text, greatest(indices) as int) + 1
    } else {
        item_text.len() as int
    }
}

/// The byte at which the text of a run starts.
pub open spec fn start_byte(item_text: Seq<char>, indices: Seq<isize>) -> nat {
    text::byte_offset(item_text, first_char(item_text, indices))
}

/// The byte at which the text of a run ends.
pub open spec fn end_byte(item_text: Seq<char>, indices: Seq<isize>) -> nat {
    text::byte_offset(item_text, end_char(item_text, indices))
}

/// The byte at which the character of code unit `index` starts; the end of the
/// text where that unit stands at its end or is not in the text.
pub open spec fn glyph_byte(item_text: Seq<char>, index: isize) -> nat {
    if 0 <= index <= text::unit_len(item_text) {
        text::byte_offset(item_text, text::char_at_unit(item_text, index as int))
    } else {
        text::byte_len(item_text)
    }
}

/// Byte offset from the start of the run's text to the character of code unit
/// `index`; none where that character stands before the run's text.
pub open spec fn glyph_offset(item_text: Seq<char>, indices: Seq<isize>, index: isize) -> int {
    let byte = glyph_byte(item_text, index);
    let start = start_byte(item_text, indices);
    if byte >= start {
        byte - start
    } else {
        0
    }
}

/// The least and the greatest code unit are among the code units, and all lie
/// between them.
pub proof fn lemma_least_and_greatest(indices: Seq<isize>)
    requires
        indices.len() > 0,
    ensures
        indices.contains(least(indices)),
        indices.contains(greatest(indices)),
        forall|i: int|
            0 <= i < indices.len() ==> least(indices) <= #[trigger] indices[i] <= greatest(indices),
    decreases indices.len(),
{
    let rest = indices.drop_last();
    assert(indices.last() == indices[indices.len() - 1]);
    if rest.len() > 0 {
        lemma_least_and_greatest(rest);
        let low = choose|i: int| 0 <= i < rest.len() && rest[i] == least(rest);
        let high = choose|i: int| 0 <= i < rest.len() && rest[i] == greatest(rest);
        assert(indices[low] == least(rest));
        assert(indices[high] == greatest(rest));
        assert forall|i: int| 0 <= i < indices.len() implies least(indices) <= #[trigger] indices[i]
            <= greatest(indices) by {
            if i < rest.len() {
                assert(rest[i] == indices[i]);
            }
        }
    }
}

/// The text of a run lies in the item's text and starts no later than it ends,
/// whatever code units CoreText gives, and both its ends are character
/// boundaries: it can always be cut out.
pub proof fn law_run_text_is_a_slice(item_text: Seq<char>, indices: Seq<isize>)
    requires
        indices.len() > 0,
    ensures
        0 <= first_char(item_text, indices) <= end_char(item_text, indices) <= item_text.len(),
        start_byte(item_text, indices) <= end_byte(item_text, indices) <= text::byte_len(item_text),
        vstd::utf8::is_char_boundary(
            vstd::utf8::encode_utf8(item_text),
            start_byte(item_text, indices) as int,
        ),
        vstd::utf8::is_char_boundary(
            vstd::utf8::encode_utf8(item_text),
            end_byte(item_text, indices) as int,
        ),
{
    lemma_least_and_greatest(indices);
    let low = least(indices) as int;
    let high = greatest(indices) as int;
    assert(low <= high) by {
        let at = choose|i: int| 0 <= i < indices.len() && indices[i] == least(indices);
        assert(indices[at] <= greatest(indices));
    }
    if 0 <= low {
        text::lemma_char_at_unit_increases(item_text, low, high);
    }
    if 0 <= high < text::unit_len(item_text) {
        text::law_unit_lies_in_its_char(item_text, high);
    }
    let first = first_char(item_text, indices);
    let end = end_char(item_text, indices);
    text::lemma_offsets_increase(item_text, first, end);
    text::law_byte_offset_is_char_boundary(item_text, first);
    text::law_byte_offset_is_char_boundary(item_text, end);
}

/// The text of a run depends on which code units its glyphs stand for, not on
/// the order in which CoreText gives them: a run from right to left covers the
/// same text as one from left to right.
pub proof fn law_run_text_ignores_glyph_order(
    item_text: Seq<char>,
    one: Seq<isize>,
    other: Seq<isize>,
)
    requires
        one.len() > 0,
        other.len() > 0,
        forall|index: isize| one.contains(index) <==> other.contains(index),
    ensures
        first_char(item_text, one) == first_char(item_text, other),
        end_char(item_text, one) == end_char(item_text, other),
{
    lemma_least_and_greatest(one);
    lemma_least_and_greatest(other);
    assert(other.contains(least(one)) && other.contains(greatest(one)));
    assert(one.contains(least(other)) && one.contains(greatest(other)));
}

/// Every glyph maps back into its run's text: counted from the start of the
/// run's text, its offset is the start of its character, which lies in the
/// run's text or at its end. CoreText's code units are not negative.
pub proof fn law_glyphs_map_into_their_run(item_text: Seq<char>, indices: Seq<isize>, i: int)
    requires
        0 <= i < indices.len(),
        forall|j: int| 0 <= j < indices.len() ==> 0 <= #[trigger] indices[j],
    ensures
        start_byte(item_text, indices) + glyph_offset(item_text, indices, indices[i])
            == glyph_byte(item_text, indices[i]),
        glyph_byte(item_text, indices[i]) <= end_byte(item_text, indices),
        indices[i] < text::unit_len(item_text) ==> glyph_byte(item_text, indices[i]) < end_byte(
            item_text,
            indices,
        ),
        vstd::utf8::is_char_boundary(
            vstd::utf8::encode_utf8(item_text),
            glyph_byte(item_text, indices[i]) as int,
        ),
{
    let n = item_text.len() as int;
    let unit = indices[i] as int;
    let low = least(indices) as int;
    let high = greatest(indices) as int;
    lemma_least_and_greatest(indices);
    law_run_text_is_a_slice(item_text, indices);
    text::lemma_char_at_unit_increases(item_text, low, unit);
    text::lemma_char_at_unit_increases(item_text, unit, high);
    assert(item_text.take(n) =~= item_text);
    if unit < text::unit_len(item_text) {
        text::law_unit_lies_in_its_char(item_text, unit);
    }
    let k = text::char_at_unit(item_text, unit);
    assert(glyph_byte(item_text, indices[i]) == text::byte_offset(item_text, k));
    text::lemma_offsets_increase(item_text, first_char(item_text, indices), k);
    text::law_byte_offset_is_char_boundary(item_text, k);
    text::lemma_offsets_increase(item_text, k, end_char(item_text, indices));
}

/// A run whose glyphs stand for the first and for the last character of the
/// text covers all of it.
pub proof fn law_run_over_both_ends_covers_the_text(
    item_text: Seq<char>,
    indices: Seq<isize>,
    first: int,
    last: int,
)
    requires
        item_text.len() > 0,
        forall|j: int| 0 <= j < indices.len() ==> 0 <= #[trigger] indices[j],
        0 <= first < indices.len(),
        indices[first] == 0,
        0 <= last < indices.len(),
        text::char_at_unit(item_text, indices[last] as int) == item_text.len() - 1,
    ensures
        first_char(item_text, indices) == 0,
        end_char(item_text, indices) == item_text.len(),
        start_byte(item_text, indices) == 0,
        end_byte(item_text, indices) == text::byte_len(item_text),
{
    lemma_least_and_greatest(indices);
    let n = item_text.len() as int;
    let high = greatest(indices) as int;
    assert(least(indices) == 0) by {
        let at = choose|i: int| 0 <= i < indices.len() && indices[i] == least(indices);
        assert(indices[at] >= 0);
    }
    text::lemma_offsets_increase(item_text, 0, 1);
    text::law_units_of_a_char_share_its_byte(item_text, 0, 0);
    text::lemma_char_at_unit_increases(item_text, indices[last] as int, high);
    if high < text::unit_len(item_text) {
        text::law_unit_lies_in_its_char(item_text, high);
    }
    assert(item_text.take(n) =~= item_text);
    assert(item_text.take(0) =~= Seq::<char>::empty());
}

/// The byte that code unit `index` stands for, where the unit is in the text
/// that `map` was made for, or at its end.
fn mapped_byte(
    map: &Vec<usize>,
    index: isize,
    Ghost(item_text): Ghost<Seq<char>>,
) -> (byte: Option<usize>)
    requires
        text::is_unit_map(map@, item_text),
    ensures
        byte is Some <==> 0 <= index <= text::unit_len(item_text),
        byte is Some ==> byte->0 == text::byte_offset(
            item_text,
            text::char_at_unit(item_text, index as int),
        ),
{
    if index >= 0 && (index as usize) < map.len() {
        Some(map[index as usize])
    } else {
        None
    }
}

/// The bytes at which the text of a run starts and ends.
pub(crate) fn run_bytes(item_text: &str, map: &Vec<usize>, indices: &[isize]) -> (bytes: (
    usize,
    usize,
))
    requires
        indices@.len() > 0,
        text::is_unit_map(map@, item_text@),
    ensures
        bytes.0 == start_byte(item_text@, indices@),
        bytes.1 == end_byte(item_text@, indices@),
{
    let ghost s = item_text@;
    let ghost n = s.len() as int;
    let mut min_utf16: isize = indices[0];
    let mut max_utf16: isize = indices[0];
    proof {
        assert(indices@.take(1).last() == indices@[0]);
    }
    for i in 1..indices.len()
        invariant
            indices@.len() > 0,
            min_utf16 == least(indices@.take(i as int)),
            max_utf16 == greatest(indices@.take(i as int)),
    {
        proof {
            assert(indices@.take(i + 1).drop_last() =~= indices@.take(i as int));
            assert(indices@.take(i + 1).last() == indices@[i as int]);
        }
        if indices[i] < min_utf16 {
            min_utf16 = indices[i];
        }
        if indices[i] > max_utf16 {
            max_utf16 = indices[i];
        }
    }
    proof {
        assert(indices@.take(indices@.len() as int) =~= indices@);
        assert(s.take(n) =~= s);
        assert(s.take(0) =~= Seq::<char>::empty());
        text::lemma_byte_len_is_encoded_len(s);
    }
    let text_len: usize = item_text.as_bytes().len();
    let start: usize = match mapped_byte(map, min_utf16, Ghost(s)) {
        Some(byte) => byte,
        None => 0,
    };
    let ghost max_char = if 0 <= max_utf16 <= text::unit_len(s) {
        text::char_at_unit(s, max_utf16 as int)
    } else {
        n
    };
    let max_byte: usize = match mapped_byte(map, max_utf16, Ghost(s)) {
        Some(byte) => byte,
        None => text_len,
    };
    proof {
        if 0 <= max_utf16 {
            text::lemma_char_at_unit_increases(s, max_utf16 as int, max_utf16 as int);
        }
        if 0 <= max_utf16 < text::unit_len(s) {
            text::law_unit_lies_in_its_char(s, max_utf16 as int);
        }
    }
    let rest = byte_slice(item_text, max_byte, text_len, Ghost(max_char), Ghost(n));
    let last_char_len: usize = if rest.is_empty() {
        0
    } else {
        len_utf8(rest.get_char(0))
    };
    proof {
        if max_char < n {
            assert(s.take(max_char + 1).drop_last() =~= s.take(max_char));
            text::lemma_offsets_increase(s, max_char + 1, n);
        }
    }
    let end: usize = max_byte + last_char_len;
    (start, end)
}

/// Whether `glyph` is glyph `i` of the run, with its advance ending at `end_x`.
pub open spec fn is_glyph<N>(
    glyph: Glyph<N>,
    item_text: Seq<char>,
    run: GlyphRun<N>,
    i: int,
    end_x: N,
) -> bool {
    &&& glyph.id == run.glyphs@[i]
    &&& glyph.x == run.positions@[i].0
    &&& glyph.y == run.positions@[i].1
    &&& glyph.end_x == end_x
    &&& glyph.offset == glyph_offset(item_text, run.indices(), run.string_indices@[i])
}

/// The x position that follows glyph `i` of the run: that of the run's next
/// glyph, after its last glyph `next_x`.
pub open spec fn following_x<N>(run: GlyphRun<N>, i: int, next_x: N) -> N {
    if i + 1 < run.count() {
        run.positions@[i + 1].0
    } else {
        next_x
    }
}

/// The glyphs of a run that is followed in the line by `next_x`.
pub(crate) fn run_glyphs<N: Copy>(
    item_text: &str,
    map: &Vec<usize>,
    run: &GlyphRun<N>,
    start: usize,
    next_x: N,
) -> (glyphs: Vec<Glyph<N>>)
    requires
        run.count() > 0,
        text::is_unit_map(map@, item_text@),
        start == start_byte(item_text@, run.indices()),
    ensures
        glyphs@.len() == run.count(),
        forall|i: int|
            #![trigger glyphs@[i]]
            0 <= i < glyphs@.len() ==> is_glyph(
                glyphs@[i],
                item_text@,
                *run,
                i,
                following_x(*run, i, next_x),
            ),
{
    let count: usize = run.glyph_count();
    let text_len: usize = item_text.as_bytes().len();
    proof {
        text::lemma_byte_len_is_encoded_len(item_text@);
    }
    let mut glyphs: Vec<Glyph<N>> = Vec::new();
    for k in 0..count
        invariant
            count == run.count(),
            text::is_unit_map(map@, item_text@),
            start == start_byte(item_text@, run.indices()),
            text_len == text::byte_len(item_text@),
            glyphs@.len() == k,
            forall|i: int|
                #![trigger glyphs@[i]]
                0 <= i < glyphs@.len() ==> is_glyph(
                    glyphs@[i],
                    item_text@,
                    *run,
                    i,
                    following_x(*run, i, next_x),
                ),
    {
        let byte: usize = match mapped_byte(map, run.string_indices[k], Ghost(item_text@)) {
            Some(byte) => byte,
            None => text_len,
        };
        let end_x: N = if k + 1 < count {
            run.positions[k + 1].0
        } else {
            next_x
        };
        glyphs.push(
            Glyph {
                id: run.glyphs[k] as u32,
                x: run.positions[k].0,
                y: run.positions[k].1,
                end_x,
                offset: byte.saturating_sub(start),
            },
        );
    }
    glyphs
}

} // verus!
