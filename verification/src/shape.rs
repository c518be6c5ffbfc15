//! Shaping of one item: which font CoreText is asked for, and the runs that its
//! line is cut into.
//!
//! CoreText shapes an item in two steps around which the decisions stand.
//! [`plan_fonts`] says which fonts and which base direction the line is made
//! with; [`shape_item_coretext`] takes the glyph runs of the line and gives the
//! runs of the layout.

use core::ops::Range;

use vstd::prelude::*;

#[allow(unused_imports)]
use crate::direction;
use crate::direction::{base_direction, is_rtl, ParagraphSetting};
#[allow(unused_imports)]
use crate::families;
use crate::families::{cascade_names, family_names, primary_family, FamilyId, MacFamilyNames};
#[allow(unused_imports)]
use crate::font;
use crate::font::{
    cascade_list, make_font, Attributes, CTFontInfo, FontDescriptor, FontStyle, MacMetrics,
    MacNativeFont,
};
#[allow(unused_imports)]
use crate::runs;
use crate::runs::{run_bytes, run_glyphs, Glyph, GlyphRun};
#[allow(unused_imports)]
use crate::text;
use crate::text::{byte_slice, utf16_to_utf8_map};

verus! {

/// What shaping reads of a resolved style.
#[derive(Debug, PartialEq)]
pub struct ResolvedStyle<N> {
    /// The families of the style's stack, where the stack is known.
    pub font_family: Option<Vec<FamilyId>>,
    pub font_weight: N,
    pub font_style: FontStyle<N>,
    pub font_width: N,
}

/// A piece of text of one style and one bidi level.
#[derive(Clone, Copy, Debug)]
pub struct Item<N> {
    /// Position of the item's style in the style table.
    pub style_index: u16,
    pub size: N,
    pub level: u8,
    pub word_spacing: N,
    pub letter_spacing: N,
}

/// What the line of an item is made with.
#[derive(Debug, PartialEq)]
pub struct FontPlan<N> {
    /// The primary font.
    pub base: FontDescriptor<N>,
    /// Size of the primary font.
    pub size: N,
    /// The cascade preference list to attach to the primary font, where there is one.
    pub cascade: Option<Vec<FontDescriptor<N>>>,
    /// The base writing direction of the line.
    pub direction: ParagraphSetting,
}

/// Whether an item has anything to shape.
pub open spec fn has_content<I>(item_text: Seq<char>, item_infos: Seq<I>) -> bool {
    item_text.len() > 0 && item_infos.len() > 0
}

/// The family names that the style's stack resolves to.
pub open spec fn style_names<N>(
    style: ResolvedStyle<N>,
    families: Map<u64, Seq<char>>,
) -> Seq<Seq<char>> {
    families::known_names(families::stack_ids(style.font_family), families)
}

/// Whether the plan is the one for an item of the given style whose families
/// have the given names: the first name is the primary font's, or the fallback
/// family where there is no name; those after it are the cascade, and the
/// direction goes by the item's level.
pub open spec fn is_plan_for<N>(
    plan: FontPlan<N>,
    item: Item<N>,
    style: ResolvedStyle<N>,
    names: Seq<Seq<char>>,
) -> bool {
    &&& plan.base.family@ == families::primary_name(names)
    &&& plan.base.traits@ == font::font_traits(style.font_weight, style.font_style)
    &&& plan.size == item.size
    &&& plan.cascade is None <==> families::names_after_primary(names).len() == 0
    &&& plan.cascade is Some ==> font::requests_families(
        plan.cascade->0@,
        families::names_after_primary(names),
    )
    &&& plan.direction == direction::direction_setting(item.level % 2 == 1)
}

/// Plans the line of an item. An item without text or without characters needs
/// no line. Where no family of the style's stack has a name, the line is made
/// with the fallback family and without a cascade.
pub fn plan_fonts<I, N: Copy>(
    styles: &[ResolvedStyle<N>],
    item: &Item<N>,
    item_text: &str,
    item_infos: &[I],
    families: &MacFamilyNames,
) -> (plan: Option<FontPlan<N>>)
    requires
        has_content(item_text@, item_infos@) ==> item.style_index < styles@.len(),
    ensures
        plan is None <==> !has_content(item_text@, item_infos@),
        plan is Some ==> is_plan_for(
            plan->0,
            *item,
            styles@[item.style_index as int],
            style_names(styles@[item.style_index as int], families@),
        ),
{
    if item_text.is_empty() || item_infos.is_empty() {
        return None;
    }
    let style = &styles[item.style_index as usize];
    let names = family_names(&style.font_family, families);
    let primary = primary_family(names.as_slice());
    let rest = cascade_names(names.as_slice());
    Some(
        FontPlan {
            base: make_font(primary.as_str(), style.font_weight, style.font_style),
            size: item.size,
            cascade: cascade_list(rest.as_slice()),
            direction: base_direction(is_rtl(item.level)),
        },
    )
}

/// An item whose stack resolves to no name is shaped all the same: with the
/// fallback family, and without a cascade.
pub proof fn law_item_without_names_gets_the_fallback<N>(
    plan: FontPlan<N>,
    item: Item<N>,
    style: ResolvedStyle<N>,
    families: Map<u64, Seq<char>>,
)
    requires
        is_plan_for(plan, item, style, style_names(style, families)),
        forall|i: int|
            0 <= i < families::stack_ids(style.font_family).len() ==> !families.contains_key(
                (#[trigger] families::stack_ids(style.font_family)[i]).raw,
            ),
    ensures
        plan.base.family@ == "Helvetica"@,
        plan.cascade is None,
{
    let ids = families::stack_ids(style.font_family);
    ids.lemma_all_neg_filter_empty(|id: FamilyId| families.contains_key(id.raw));
}

/// A run of the layout.
#[derive(Debug, PartialEq)]
pub struct ShapedRun<'a, I, N> {
    /// Identity of the run's font.
    pub native_font: MacNativeFont<N>,
    /// Size of the run's font.
    pub font_size: N,
    /// Width, style and weight that the item's style asks for.
    pub font_attrs: Attributes<N>,
    pub bidi_level: u8,
    pub style_index: u16,
    pub word_spacing: N,
    pub letter_spacing: N,
    /// The text of the run.
    pub text: &'a str,
    /// The entries of the run's characters.
    pub infos: &'a [I],
    /// Where the run's text stands in the whole text, in bytes.
    pub text_range: Range<usize>,
    /// Metrics of the run's font.
    pub metrics: MacMetrics<N>,
    pub glyphs: Vec<Glyph<N>>,
}

/// The runs of the line that become runs of the layout, in order.
pub open spec fn kept_runs<N>(line: Seq<GlyphRun<N>>) -> Seq<GlyphRun<N>> {
    line.filter(|run: GlyphRun<N>| run.is_kept())
}

/// The x position that follows run `j` of the kept runs: that of the first
/// glyph of the next run, after the last run the width of the line.
pub open spec fn x_after_run<N>(kept: Seq<GlyphRun<N>>, j: int, line_width: N) -> N {
    if j + 1 < kept.len() {
        kept[j + 1].positions@[0].0
    } else {
        line_width
    }
}

/// Whether a kept run can be placed: its text starts at a character that has an
/// entry or at the end of the entries, and its place in the whole text can be
/// counted.
pub open spec fn run_fits<N>(
    run: GlyphRun<N>,
    item_text: Seq<char>,
    info_count: int,
    text_start: int,
) -> bool {
    run.is_kept() ==> {
        &&& runs::first_char(item_text, run.indices()) <= info_count
        &&& text_start + runs::end_byte(item_text, run.indices()) <= usize::MAX
    }
}

/// Whether `shaped` is what run `j` of the kept runs becomes.
pub open spec fn is_shaped_run<I, N>(
    shaped: ShapedRun<I, N>,
    kept: Seq<GlyphRun<N>>,
    j: int,
    item: Item<N>,
    style: ResolvedStyle<N>,
    item_text: Seq<char>,
    item_infos: Seq<I>,
    text_start: int,
    line_width: N,
) -> bool {
    let run = kept[j];
    let first = runs::first_char(item_text, run.indices());
    let end = runs::end_char(item_text, run.indices());
    let info_end = if end < item_infos.len() {
        end
    } else {
        item_infos.len() as int
    };
    &&& first <= item_infos.len()
    &&& shaped.native_font == font::native_font(run.font->0)
    &&& shaped.font_size == run.font->0.pt_size
    &&& shaped.metrics == run.font->0.metrics
    &&& shaped.font_attrs.width == style.font_width
    &&& shaped.font_attrs.style == style.font_style
    &&& shaped.font_attrs.weight == style.font_weight
    &&& shaped.bidi_level == item.level
    &&& shaped.style_index == item.style_index
    &&& shaped.word_spacing == item.word_spacing
    &&& shaped.letter_spacing == item.letter_spacing
    &&& shaped.text@ == item_text.subrange(first, end)
    &&& shaped.infos@ == item_infos.subrange(first, info_end)
    &&& shaped.text_range.start == text_start + runs::start_byte(item_text, run.indices())
    &&& shaped.text_range.end == text_start + runs::end_byte(item_text, run.indices())
    &&& shaped.glyphs@.len() == run.count()
    &&& forall|i: int|
        #![trigger shaped.glyphs@[i]]
        0 <= i < shaped.glyphs@.len() ==> runs::is_glyph(
            shaped.glyphs@[i],
            item_text,
            run,
            i,
            runs::following_x(run, i, x_after_run(kept, j, line_width)),
        )
}

/// Whether `shaped` are the runs that the line becomes, one for each kept run.
pub open spec fn is_shaped_line<I, N>(
    shaped: Seq<ShapedRun<I, N>>,
    line: Seq<GlyphRun<N>>,
    item: Item<N>,
    style: ResolvedStyle<N>,
    item_text: Seq<char>,
    item_infos: Seq<I>,
    text_start: int,
    line_width: N,
) -> bool {
    &&& shaped.len() == kept_runs(line).len()
    &&& forall|j: int|
        #![trigger shaped[j]]
        0 <= j < shaped.len() ==> is_shaped_run(
            shaped[j],
            kept_runs(line),
            j,
            item,
            style,
            item_text,
            item_infos,
            text_start,
            line_width,
        )
}

/// The runs of the line that become runs of the layout.
fn keep_runs<'r, N>(line: &'r [GlyphRun<N>]) -> (kept: Vec<&'r GlyphRun<N>>)
    ensures
        kept@.len() == kept_runs(line@).len(),
        forall|j: int|
            #![trigger kept@[j]]
            0 <= j < kept@.len() ==> *kept@[j] == kept_runs(line@)[j],
{
    let ghost is_kept = |run: GlyphRun<N>| run.is_kept();
    let mut kept: Vec<&'r GlyphRun<N>> = Vec::new();
    for i in 0..line.len()
        invariant
            is_kept == (|run: GlyphRun<N>| run.is_kept()),
            kept@.len() == line@.take(i as int).filter(is_kept).len(),
            forall|j: int|
                #![trigger kept@[j]]
                0 <= j < kept@.len() ==> *kept@[j] == line@.take(i as int).filter(is_kept)[j],
    {
        proof {
            reveal(Seq::filter);
            assert(line@.take(i + 1).drop_last() =~= line@.take(i as int));
            assert(line@.take(i + 1).last() == line@[i as int]);
        }
        let run = &line[i];
        if run.font.is_some() && run.glyph_count() > 0 {
            kept.push(run);
        }
    }
    proof {
        assert(line@.take(line@.len() as int) =~= line@);
    }
    kept
}

/// Each kept run names a font, has glyphs and is a run of the line.
pub proof fn lemma_kept_runs<N>(line: Seq<GlyphRun<N>>, j: int)
    requires
        0 <= j < kept_runs(line).len(),
    ensures
        kept_runs(line)[j].is_kept(),
        line.contains(kept_runs(line)[j]),
{
    let is_kept = |run: GlyphRun<N>| run.is_kept();
    line.lemma_filter_pred(is_kept, j);
    line.lemma_filter_contains_rev(is_kept, kept_runs(line)[j]);
}

/// Cuts the line that CoreText made of an item into the runs of the layout.
///
/// Every run that names a font and has glyphs becomes one run of the layout;
/// the others are left out. An item without text or without characters has no
/// runs.
pub fn shape_item_coretext<'a, I, N: Copy>(
    styles: &[ResolvedStyle<N>],
    item: &Item<N>,
    item_text: &'a str,
    item_infos: &'a [I],
    text_start: usize,
    line: &[GlyphRun<N>],
    line_width: N,
) -> (shaped: Vec<ShapedRun<'a, I, N>>)
    requires
        has_content(item_text@, item_infos@) ==> {
            &&& item.style_index < styles@.len()
            &&& forall|r: int|
                0 <= r < line@.len() ==> run_fits(
                    #[trigger] line@[r],
                    item_text@,
                    item_infos@.len() as int,
                    text_start as int,
                )
        },
    ensures
        !has_content(item_text@, item_infos@) ==> shaped@.len() == 0,
        has_content(item_text@, item_infos@) ==> is_shaped_line(
            shaped@,
            line@,
            *item,
            styles@[item.style_index as int],
            item_text@,
            item_infos@,
            text_start as int,
            line_width,
        ),
{
    let mut shaped: Vec<ShapedRun<'a, I, N>> = Vec::new();
    if item_text.is_empty() || item_infos.is_empty() {
        return shaped;
    }
    let style = &styles[item.style_index as usize];
    let map = utf16_to_utf8_map(item_text);
    let kept = keep_runs(line);
    let ghost all = kept_runs(line@);
    for k in 0..kept.len()
        invariant
            *style == styles@[item.style_index as int],
            text::is_unit_map(map@, item_text@),
            all == kept_runs(line@),
            kept@.len() == all.len(),
            forall|j: int| #![trigger kept@[j]] 0 <= j < kept@.len() ==> *kept@[j] == all[j],
            forall|r: int|
                0 <= r < line@.len() ==> run_fits(
                    #[trigger] line@[r],
                    item_text@,
                    item_infos@.len() as int,
                    text_start as int,
                ),
            shaped@.len() == k,
            forall|j: int|
                #![trigger shaped@[j]]
                0 <= j < shaped@.len() ==> is_shaped_run(
                    shaped@[j],
                    all,
                    j,
                    *item,
                    *style,
                    item_text@,
                    item_infos@,
                    text_start as int,
                    line_width,
                ),
    {
        let run = kept[k];
        proof {
            lemma_kept_runs(line@, k as int);
            if k + 1 < all.len() {
                lemma_kept_runs(line@, k + 1);
            }
        }
        let count: usize = run.glyph_count();
        let indices = vstd::slice::slice_subrange(run.string_indices.as_slice(), 0, count);
        let ghost first = runs::first_char(item_text@, run.indices());
        let ghost end = runs::end_char(item_text@, run.indices());
        proof {
            assert(indices@ =~= run.indices());
            runs::law_run_text_is_a_slice(item_text@, run.indices());
        }
        let (start_byte, end_byte) = run_bytes(item_text, &map, indices);
        let next_x: N = if k + 1 < kept.len() {
            kept[k + 1].positions[0].0
        } else {
            line_width
        };
        let glyphs = run_glyphs(item_text, &map, run, start_byte, next_x);

        let run_text = byte_slice(item_text, start_byte, end_byte, Ghost(first), Ghost(end));
        let ahead = byte_slice(item_text, 0, start_byte, Ghost(0), Ghost(first));
        let run_char_start: usize = ahead.unicode_len();
        let run_char_count: usize = run_text.unicode_len();
        let run_char_end: usize = if run_char_count < item_infos.len() - run_char_start {
            run_char_start + run_char_count
        } else {
            item_infos.len()
        };
        let run_infos = vstd::slice::slice_subrange(item_infos, run_char_start, run_char_end);
        if let Some(run_font) = &run.font {
            shaped.push(
                ShapedRun {
                    native_font: MacNativeFont::from_ctfont(run_font),
                    font_size: run_font.pt_size,
                    font_attrs: Attributes {
                        width: style.font_width,
                        style: style.font_style,
                        weight: style.font_weight,
                    },
                    bidi_level: item.level,
                    style_index: item.style_index,
                    word_spacing: item.word_spacing,
                    letter_spacing: item.letter_spacing,
                    text: run_text,
                    infos: run_infos,
                    text_range: (text_start + start_byte)..(text_start + end_byte),
                    metrics: run_font.metrics,
                    glyphs,
                },
            );
        }
    }
    shaped
}

/// Whether every run of the line can be placed, as shaping the item takes.
pub fn line_fits<I, N>(
    item_text: &str,
    item_infos: &[I],
    text_start: usize,
    line: &[GlyphRun<N>],
) -> (fits: bool)
    ensures
        fits == forall|r: int|
            0 <= r < line@.len() ==> run_fits(
                #[trigger] line@[r],
                item_text@,
                item_infos@.len() as int,
                text_start as int,
            ),
{
    let map = utf16_to_utf8_map(item_text);
    for k in 0..line.len()
        invariant
            text::is_unit_map(map@, item_text@),
            forall|r: int|
                0 <= r < k ==> run_fits(
                    #[trigger] line@[r],
                    item_text@,
                    item_infos@.len() as int,
                    text_start as int,
                ),
    {
        let run = &line[k];
        let count: usize = run.glyph_count();
        if run.font.is_some() && count > 0 {
            let indices = vstd::slice::slice_subrange(run.string_indices.as_slice(), 0, count);
            let ghost first = runs::first_char(item_text@, run.indices());
            proof {
                assert(indices@ =~= run.indices());
                assert(*run == line@[k as int]);
                runs::law_run_text_is_a_slice(item_text@, run.indices());
            }
            let (start_byte, end_byte) = run_bytes(item_text, &map, indices);
            let ahead = byte_slice(item_text, 0, start_byte, Ghost(0), Ghost(first));
            if ahead.unicode_len() > item_infos.len() || end_byte > usize::MAX - text_start {
                return false;
            }
        }
    }
    true
}

/// Where every character has an entry, every line of the item can be placed,
/// as far as the end of the item can be counted.
pub proof fn law_one_entry_per_char_fits<N>(
    run: GlyphRun<N>,
    item_text: Seq<char>,
    text_start: int,
)
    requires
        text_start + text::byte_len(item_text) <= usize::MAX,
    ensures
        run_fits(run, item_text, item_text.len() as int, text_start),
{
    if run.is_kept() {
        runs::law_run_text_is_a_slice(item_text, run.indices());
    }
}

/// The text, the text range and the entries of a shaped run speak of the same
/// characters: the range is as long as the encoded text, and where every
/// character has an entry, there is one entry for each character of the run.
pub proof fn law_shaped_run_agrees_with_its_text<I, N>(
    shaped: Seq<ShapedRun<I, N>>,
    j: int,
    line: Seq<GlyphRun<N>>,
    item: Item<N>,
    style: ResolvedStyle<N>,
    item_text: Seq<char>,
    item_infos: Seq<I>,
    text_start: int,
    line_width: N,
)
    requires
        is_shaped_line(
            shaped,
            line,
            item,
            style,
            item_text,
            item_infos,
            text_start,
            line_width,
        ),
        0 <= j < shaped.len(),
    ensures
        shaped[j].text_range.end - shaped[j].text_range.start == text::byte_len(shaped[j].text@),
        text_start <= shaped[j].text_range.start,
        shaped[j].text_range.end <= text_start + text::byte_len(item_text),
        item_infos.len() == item_text.len() ==> shaped[j].infos@.len() == shaped[j].text@.len(),
{
    lemma_kept_runs(line, j);
    let indices = kept_runs(line)[j].indices();
    assert(is_shaped_run(
        shaped[j],
        kept_runs(line),
        j,
        item,
        style,
        item_text,
        item_infos,
        text_start,
        line_width,
    ));
    runs::law_run_text_is_a_slice(item_text, indices);
    text::lemma_offsets_increase(
        item_text,
        runs::first_char(item_text, indices),
        runs::end_char(item_text, indices),
    );
}

/// Advances leave no gap: each glyph's advance ends at the x position of the
/// next glyph, also from one run to the next, and the last one ends at the
/// width of the line.
pub proof fn law_advances_reach_the_next_glyph<I, N>(
    shaped: Seq<ShapedRun<I, N>>,
    j: int,
    i: int,
    line: Seq<GlyphRun<N>>,
    item: Item<N>,
    style: ResolvedStyle<N>,
    item_text: Seq<char>,
    item_infos: Seq<I>,
    text_start: int,
    line_width: N,
)
    requires
        is_shaped_line(
            shaped,
            line,
            item,
            style,
            item_text,
            item_infos,
            text_start,
            line_width,
        ),
        0 <= j < shaped.len(),
        0 <= i < shaped[j].glyphs@.len(),
    ensures
        i + 1 < shaped[j].glyphs@.len() ==> shaped[j].glyphs@[i].end_x == shaped[j].glyphs@[i
            + 1].x,
        i + 1 == shaped[j].glyphs@.len() && j + 1 < shaped.len() ==> {
            &&& shaped[j + 1].glyphs@.len() > 0
            &&& shaped[j].glyphs@[i].end_x == shaped[j + 1].glyphs@[0].x
        },
        i + 1 == shaped[j].glyphs@.len() && j + 1 == shaped.len() ==> shaped[j].glyphs@[i].end_x
            == line_width,
{
    if j + 1 < shaped.len() {
        lemma_kept_runs(line, j + 1);
        assert(shaped[j + 1].glyphs@.len() == kept_runs(line)[j + 1].count());
    }
}

} // verus!
