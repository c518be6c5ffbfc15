//! What the operations do, said of the values that go into a call and of those
//! that come out of it.
//!
//! Each law takes the arguments of one or more calls and results that these
//! calls may have, and says how they are related. Places in a text are given by
//! its UTF-8 and UTF-16 encodings.

use vstd::prelude::*;
#[allow(unused_imports)]
use vstd::utf8::*;

#[allow(unused_imports)]
use crate::direction::{base_direction, is_rtl, ParagraphSetting};
#[allow(unused_imports)]
use crate::families;
#[allow(unused_imports)]
use crate::families::{cascade_names, family_names, primary_family, FamilyId, MacFamilyNames};
#[allow(unused_imports)]
use crate::font::{
    cascade_list, descriptor_for_family, make_font, with_cascade, CTFontInfo, FontDescriptor,
    FontStyle, FontTrait, MacNativeFont,
};
#[allow(unused_imports)]
use crate::runs;
#[allow(unused_imports)]
use crate::runs::GlyphRun;
#[allow(unused_imports)]
use crate::shape;
#[allow(unused_imports)]
use crate::shape::{
    line_fits, plan_fonts, shape_item_coretext, FontPlan, Item, ResolvedStyle, ShapedRun,
};
#[allow(unused_imports)]
use crate::text;
#[allow(unused_imports)]
use crate::text::utf16_to_utf8_map;
#[allow(unused_imports)]
use crate::utf16;

verus! {

/// Byte at which character `k` starts in the UTF-8 encoding of the text.
pub open spec fn byte_at(text: Seq<char>, k: int) -> int {
    encode_utf8(text.take(k)).len() as int
}

/// Whether code unit `unit` of the UTF-16 encoding of the text belongs to
/// character `k`.
pub open spec fn unit_in_char(text: Seq<char>, unit: int, k: int) -> bool {
    &&& 0 <= k < text.len()
    &&& utf16::encode_utf16(text.take(k)).len() <= unit
    &&& unit < utf16::encode_utf16(text.take(k + 1)).len()
}

/// The places of the encodings are those of the model.
proof fn lemma_places(text: Seq<char>)
    ensures
        forall|k: int|
            #![trigger byte_at(text, k)]
            0 <= k <= text.len() ==> byte_at(text, k) == text::byte_offset(text, k),
        byte_at(text, text.len() as int) == encode_utf8(text).len(),
        text::byte_len(text) == encode_utf8(text).len(),
        text::unit_len(text) == utf16::encode_utf16(text).len(),
        forall|unit: int, k: int|
            #![trigger unit_in_char(text, unit, k)]
            unit_in_char(text, unit, k) ==> {
                &&& 0 <= unit < text::unit_len(text)
                &&& text::char_at_unit(text, unit) == k
            },
{
    assert(text.take(text.len() as int) =~= text);
    text::lemma_byte_len_is_encoded_len(text);
    utf16::law_unit_len_is_encoded_len(text);
    assert forall|k: int| #![trigger byte_at(text, k)] 0 <= k <= text.len() implies byte_at(text, k)
        == text::byte_offset(text, k) by {
        text::lemma_byte_len_is_encoded_len(text.take(k));
    }
    assert forall|unit: int, k: int|
        #![trigger unit_in_char(text, unit, k)]
        unit_in_char(text, unit, k) implies 0 <= unit < text::unit_len(text) && text::char_at_unit(
        text,
        unit,
    ) == k by {
        utf16::law_unit_len_is_encoded_len(text.take(k));
        utf16::law_unit_len_is_encoded_len(text.take(k + 1));
        text::lemma_offsets_increase(text, k, k + 1);
        text::law_units_of_a_char_share_its_byte(text, k, unit);
    }
}

/// Every code unit of the text belongs to a character.
proof fn lemma_unit_has_char(text: Seq<char>, unit: int) -> (k: int)
    requires
        0 <= unit < utf16::encode_utf16(text).len(),
    ensures
        unit_in_char(text, unit, k),
{
    utf16::law_unit_len_is_encoded_len(text);
    text::law_unit_lies_in_its_char(text, unit);
    let k = text::char_at_unit(text, unit);
    utf16::law_unit_len_is_encoded_len(text.take(k));
    utf16::law_unit_len_is_encoded_len(text.take(k + 1));
    k
}

/// The map of a text has one entry for each unit of its UTF-16 encoding and one
/// for its end. A unit's entry is the length of the UTF-8 encoding of what
/// stands before its character; the last entry is that of the whole text.
pub proof fn law_map_goes_from_utf16_to_utf8(text: &str, map: Vec<usize>, unit: int, k: int)
    requires
        call_ensures(utf16_to_utf8_map, (text,), map),
    ensures
        map@.len() == utf16::encode_utf16(text@).len() + 1,
        map@.last() == encode_utf8(text@).len(),
        unit_in_char(text@, unit, k) ==> map@[unit] == encode_utf8(text@.take(k)).len(),
{
    lemma_places(text@);
    text::law_unit_to_byte_increases(text@, 0, 0);
    if unit_in_char(text@, unit, k) {
        assert(byte_at(text@, k) == text::byte_offset(text@, k));
    }
}

/// A text that starts with another text has that text's map, but for its last
/// entry, at the start of its own.
pub proof fn law_map_of_a_longer_text(
    short: &str,
    long: &str,
    short_map: Vec<usize>,
    long_map: Vec<usize>,
    rest: Seq<char>,
)
    requires
        call_ensures(utf16_to_utf8_map, (short,), short_map),
        call_ensures(utf16_to_utf8_map, (long,), long_map),
        long@ == short@ + rest,
    ensures
        long_map@.len() == short_map@.len() + utf16::encode_utf16(rest).len(),
        forall|unit: int|
            #![trigger long_map@[unit]]
            0 <= unit < short_map@.len() ==> long_map@[unit] == short_map@[unit],
{
    let a = short@;
    let b = long@;
    lemma_places(a);
    lemma_places(b);
    utf16::law_encode_concat(a, rest);
    assert forall|unit: int| #![trigger long_map@[unit]] 0 <= unit < short_map@.len() implies
        long_map@[unit] == short_map@[unit] by {
        if unit < short_map@.len() - 1 {
            let k = lemma_unit_has_char(a, unit);
            assert(b.take(k) =~= a.take(k));
            assert(b.take(k + 1) =~= a.take(k + 1));
            assert(unit_in_char(b, unit, k));
            law_map_goes_from_utf16_to_utf8(short, short_map, unit, k);
            law_map_goes_from_utf16_to_utf8(long, long_map, unit, k);
        } else {
            law_map_goes_from_utf16_to_utf8(short, short_map, 0, 0);
            law_map_goes_from_utf16_to_utf8(long, long_map, 0, 0);
            let n = a.len() as int;
            assert(b.take(n) =~= a);
            if n < b.len() {
                assert(b.take(n + 1).drop_last() =~= b.take(n));
                assert(unit_in_char(b, unit, n));
                law_map_goes_from_utf16_to_utf8(long, long_map, unit, n);
            } else {
                assert(rest =~= Seq::<char>::empty());
                assert(b =~= a);
            }
        }
    }
}

/// A level goes from right to left exactly where the level below it does not,
/// and level 0 goes from left to right.
pub proof fn law_directions_alternate(level: u8, next: u8, rtl: bool, next_rtl: bool)
    requires
        call_ensures(is_rtl, (level,), rtl),
        call_ensures(is_rtl, (next,), next_rtl),
        next == level + 1,
    ensures
        next_rtl == !rtl,
        level == 0 ==> !rtl,
{
}

/// The base direction is the setting with specifier 13, of value 1 from right to
/// left and 0 from left to right.
pub proof fn law_base_direction_values(rtl: bool, setting: ParagraphSetting)
    requires
        call_ensures(base_direction, (rtl,), setting),
    ensures
        setting.specifier == 13,
        rtl ==> setting.value == 1,
        !rtl ==> setting.value == 0,
{
}

/// The request for a font asks for its family and first for its weight. Only a
/// slanted style asks for more, and then for a slant of 20 hundredths, whatever
/// the angle.
pub proof fn law_font_request<N: Copy>(
    family: &str,
    weight: N,
    style: FontStyle<N>,
    descriptor: FontDescriptor<N>,
)
    requires
        call_ensures(make_font::<N>, (family, weight, style), descriptor),
    ensures
        descriptor.family@ == family@,
        descriptor.traits@.len() >= 1,
        descriptor.traits@[0] == FontTrait::Weight(weight),
        style is Normal ==> descriptor.traits@.len() == 1,
        style is Italic || style is Oblique ==> {
            &&& descriptor.traits@.len() == 2
            &&& descriptor.traits@[1] == FontTrait::<N>::Slant(20)
        },
{
}

/// The request for a family asks for that family and for no trait.
pub proof fn law_family_request<N>(name: &str, descriptor: FontDescriptor<N>)
    requires
        call_ensures(descriptor_for_family::<N>, (name,), descriptor),
    ensures
        descriptor.family@ == name@,
        descriptor.traits@.len() == 0,
{
}

/// The cascade list asks for each name in its place, by the name alone; there
/// is no list exactly where there is no name.
pub proof fn law_cascade_list_asks_for_each_name<N>(
    names: &[String],
    list: Option<Vec<FontDescriptor<N>>>,
    i: int,
)
    requires
        call_ensures(cascade_list::<N>, (names,), list),
    ensures
        list is Some <==> names@.len() > 0,
        list is Some ==> list->0@.len() == names@.len(),
        0 <= i < names@.len() ==> {
            &&& list->0@[i].family@ == names@[i]@
            &&& list->0@[i].traits@.len() == 0
        },
{
}

/// A cascade that was attached is used; otherwise the base font is.
pub proof fn law_attached_cascade_is_used<F>(base: F, attached: Option<F>, font: F)
    requires
        call_ensures(with_cascade::<F>, (base, attached), font),
    ensures
        attached is Some ==> font == attached->0,
        attached is None ==> font == base,
{
}

/// The key of a font has the font's own names and size, and it is a color key
/// exactly where bit 13 of the font's traits is set.
pub proof fn law_key_is_taken_from_the_font<N: Copy>(font: CTFontInfo<N>, key: MacNativeFont<N>)
    requires
        call_ensures(MacNativeFont::<N>::from_ctfont, (&font,), key),
    ensures
        key.postscript_name@ == font.postscript_name@,
        key.family_name@ == font.family_name@,
        key.size == font.pt_size,
        key.color == (font.symbolic_traits & (1u32 << 13) != 0),
{
    let traits = font.symbolic_traits;
    assert((traits & (1u32 << 13) != 0) == ((traits / 0x2000) % 2 == 1)) by (bit_vector);
}

/// A table that was just made has no name for any family.
pub proof fn law_new_table_has_no_name(families: MacFamilyNames, id: FamilyId, name: Option<&str>)
    requires
        call_ensures(MacFamilyNames::default, (), families),
        call_ensures(MacFamilyNames::get, (&families, id), name),
    ensures
        name is None,
{
}

/// After a name was recorded for a family, that name is found for it, and for
/// every other family what was found before.
pub proof fn law_recorded_name_is_read_back(
    before: MacFamilyNames,
    id: FamilyId,
    name: &str,
    after: MacFamilyNames,
    found: Option<&str>,
    other: FamilyId,
    other_before: Option<&str>,
    other_after: Option<&str>,
)
    requires
        exists|table: &mut MacFamilyNames|
            #![trigger call_ensures(MacFamilyNames::insert, (table, id, name), ())]
            *table == before && *final(table) == after && call_ensures(
                MacFamilyNames::insert,
                (table, id, name),
                (),
            ),
        call_ensures(MacFamilyNames::get, (&after, id), found),
        call_ensures(MacFamilyNames::get, (&before, other), other_before),
        call_ensures(MacFamilyNames::get, (&after, other), other_after),
    ensures
        found is Some,
        found->0@ == name@,
        other != id ==> (other_after is Some <==> other_before is Some),
        other != id && other_before is Some ==> other_after->0@ == other_before->0@,
{
}

/// A stack that is not known or has no families has no names.
pub proof fn law_empty_stack_has_no_names(
    stack: Option<Vec<FamilyId>>,
    families: &MacFamilyNames,
    names: Vec<String>,
)
    requires
        call_ensures(family_names, (&stack, families), names),
        stack is None || stack->0@.len() == 0,
    ensures
        names@.len() == 0,
{
    reveal(Seq::filter);
    assert(families::texts(names@).len() == names@.len());
}

/// A family at the end of a stack adds the name that is found for it at the end
/// of the names, and nothing where none is found; the other names stay.
pub proof fn law_each_family_adds_its_name(
    stack: Option<Vec<FamilyId>>,
    longer: Option<Vec<FamilyId>>,
    id: FamilyId,
    families: &MacFamilyNames,
    names: Vec<String>,
    more_names: Vec<String>,
    found: Option<&str>,
)
    requires
        stack is Some,
        longer is Some,
        longer->0@ == stack->0@.push(id),
        call_ensures(family_names, (&stack, families), names),
        call_ensures(family_names, (&longer, families), more_names),
        call_ensures(MacFamilyNames::get, (families, id), found),
    ensures
        found is Some ==> {
            &&& more_names@.len() == names@.len() + 1
            &&& more_names@.last()@ == found->0@
        },
        found is None ==> more_names@.len() == names@.len(),
        forall|i: int|
            #![trigger more_names@[i]]
            0 <= i < names@.len() ==> more_names@[i]@ == names@[i]@,
{
    reveal(Seq::filter);
    let few = families::texts(names@);
    let many = families::texts(more_names@);
    assert(longer->0@.drop_last() =~= stack->0@);
    assert(longer->0@.last() == id);
    assert(few.len() == names@.len() && many.len() == more_names@.len());
    assert forall|i: int| #![trigger more_names@[i]] 0 <= i < names@.len() implies more_names@[i]@
        == names@[i]@ by {
        assert(many[i] == few[i]);
    }
    if found is Some {
        assert(many[many.len() - 1] == found->0@);
    }
}

/// The primary family is the first name, and "Helvetica" where there is none.
pub proof fn law_primary_family_is_the_first(names: &[String], family: String)
    requires
        call_ensures(primary_family, (names,), family),
    ensures
        names@.len() > 0 ==> family@ == names@[0]@,
        names@.len() == 0 ==> family@ == "Helvetica"@,
{
    assert(families::texts(names@).len() == names@.len());
}

/// The cascade leaves out the first name alone, and keeps all others in order.
pub proof fn law_cascade_is_all_but_the_first(names: &[String], rest: Vec<String>, i: int)
    requires
        call_ensures(cascade_names, (names,), rest),
    ensures
        names@.len() > 0 ==> rest@.len() == names@.len() - 1,
        names@.len() == 0 ==> rest@.len() == 0,
        0 <= i < rest@.len() ==> rest@[i]@ == names@[i + 1]@,
{
    let all = families::texts(names@);
    let after = families::texts(rest@);
    assert(all.len() == names@.len() && after.len() == rest@.len());
    if 0 <= i < rest@.len() {
        assert(after[i] == all[i + 1]);
    }
}

/// An item gets a plan exactly where it has text and characters. The plan has
/// the size of the item, and the weight and slant of the item's own style.
pub proof fn law_plan_follows_item_and_style<I, N: Copy>(
    styles: &[ResolvedStyle<N>],
    item: &Item<N>,
    item_text: &str,
    item_infos: &[I],
    families: &MacFamilyNames,
    plan: Option<FontPlan<N>>,
)
    requires
        call_ensures(plan_fonts::<I, N>, (styles, item, item_text, item_infos, families), plan),
    ensures
        plan is Some <==> item_text@.len() > 0 && item_infos@.len() > 0,
        plan is Some ==> {
            let style = styles@[item.style_index as int];
            let traits = plan->0.base.traits@;
            &&& plan->0.size == item.size
            &&& traits.len() >= 1
            &&& traits[0] == FontTrait::Weight(style.font_weight)
            &&& style.font_style is Normal ==> traits.len() == 1
            &&& style.font_style is Italic || style.font_style is Oblique ==> traits.len() == 2
                && traits[1] == FontTrait::<N>::Slant(20)
        },
{
}

/// The plan asks for the families of the item's style: for the first name as
/// primary font, for each later name in the cascade at its place, by name
/// alone. Without any name it asks for "Helvetica", and without a second name
/// there is no cascade.
pub proof fn law_plan_asks_for_the_names_of_the_stack<I, N: Copy>(
    styles: &[ResolvedStyle<N>],
    item: &Item<N>,
    item_text: &str,
    item_infos: &[I],
    families: &MacFamilyNames,
    plan: Option<FontPlan<N>>,
    names: Vec<String>,
    i: int,
)
    requires
        call_ensures(plan_fonts::<I, N>, (styles, item, item_text, item_infos, families), plan),
        call_ensures(
            family_names,
            (&styles@[item.style_index as int].font_family, families),
            names,
        ),
        plan is Some,
    ensures
        names@.len() == 0 ==> plan->0.base.family@ == "Helvetica"@,
        names@.len() > 0 ==> plan->0.base.family@ == names@[0]@,
        plan->0.cascade is None <==> names@.len() <= 1,
        names@.len() > 1 ==> plan->0.cascade->0@.len() == names@.len() - 1,
        1 <= i < names@.len() ==> {
            &&& plan->0.cascade->0@[i - 1].family@ == names@[i]@
            &&& plan->0.cascade->0@[i - 1].traits@.len() == 0
        },
{
    let all = families::texts(names@);
    assert(all.len() == names@.len());
    if names@.len() > 0 {
        assert(all[0] == names@[0]@);
    }
    if 1 <= i < names@.len() {
        assert(all.drop_first()[i - 1] == names@[i]@);
    }
}

/// The direction setting of an item's line has specifier 13, with value 1
/// exactly at the odd levels and value 0 exactly at the even ones.
pub proof fn law_plan_direction_is_the_parity_of_the_level<I, N: Copy>(
    styles: &[ResolvedStyle<N>],
    item: &Item<N>,
    item_text: &str,
    item_infos: &[I],
    families: &MacFamilyNames,
    plan: Option<FontPlan<N>>,
    half: int,
)
    requires
        call_ensures(plan_fonts::<I, N>, (styles, item, item_text, item_infos, families), plan),
        plan is Some,
    ensures
        plan->0.direction.specifier == 13,
        plan->0.direction.value == 0 || plan->0.direction.value == 1,
        item.level == 2 * half ==> plan->0.direction.value == 0,
        item.level == 2 * half + 1 ==> plan->0.direction.value == 1,
{
}

/// Two items whose levels lie two apart get the same direction, and two whose
/// levels lie one apart get opposite ones, whatever else differs between them.
pub proof fn law_plan_directions_of_two_levels<I, N: Copy>(
    styles: &[ResolvedStyle<N>],
    item: &Item<N>,
    item_text: &str,
    item_infos: &[I],
    families: &MacFamilyNames,
    plan: Option<FontPlan<N>>,
    other_styles: &[ResolvedStyle<N>],
    other: &Item<N>,
    other_text: &str,
    other_infos: &[I],
    other_families: &MacFamilyNames,
    other_plan: Option<FontPlan<N>>,
)
    requires
        call_ensures(plan_fonts::<I, N>, (styles, item, item_text, item_infos, families), plan),
        call_ensures(
            plan_fonts::<I, N>,
            (other_styles, other, other_text, other_infos, other_families),
            other_plan,
        ),
        plan is Some,
        other_plan is Some,
    ensures
        other.level == item.level + 2 ==> other_plan->0.direction == plan->0.direction,
        other.level == item.level + 1 ==> other_plan->0.direction.value == 1
            - plan->0.direction.value,
{
}

/// The arguments of a call that shapes an item.
pub struct ShapeCall<'a, I, N> {
    pub styles: &'a [ResolvedStyle<N>],
    pub item: &'a Item<N>,
    pub item_text: &'a str,
    pub item_infos: &'a [I],
    pub text_start: usize,
    pub line: &'a [GlyphRun<N>],
    pub line_width: N,
}

impl<'a, I, N: Copy> ShapeCall<'a, I, N> {
    /// Whether the call may have the given result.
    pub open spec fn gives(self, shaped: Vec<ShapedRun<'a, I, N>>) -> bool {
        call_ensures(
            shape_item_coretext::<I, N>,
            (
                self.styles,
                self.item,
                self.item_text,
                self.item_infos,
                self.text_start,
                self.line,
                self.line_width,
            ),
            shaped,
        )
    }

    /// The item's style.
    pub open spec fn style(self) -> ResolvedStyle<N> {
        self.styles@[self.item.style_index as int]
    }
}

/// Whether the run names a font and has a glyph with number, position and code
/// unit.
pub open spec fn has_glyphs<N>(run: GlyphRun<N>) -> bool {
    &&& run.font is Some
    &&& run.glyphs@.len() > 0
    &&& run.positions@.len() > 0
    &&& run.string_indices@.len() > 0
}

/// Number of runs with glyphs among the first `r` runs of the line.
pub open spec fn place<N>(line: Seq<GlyphRun<N>>, r: int) -> int
    decreases r,
{
    if r <= 0 {
        0
    } else if has_glyphs(line[r - 1]) {
        place(line, r - 1) + 1
    } else {
        place(line, r - 1)
    }
}

proof fn lemma_place_of_prefix<N>(line: Seq<GlyphRun<N>>, r: int)
    requires
        0 <= r <= line.len(),
    ensures
        shape::kept_runs(line.take(r)).len() == place(line, r),
    decreases r,
{
    reveal(Seq::filter);
    if r > 0 {
        lemma_place_of_prefix(line, r - 1);
        assert(line.take(r).drop_last() =~= line.take(r - 1));
        assert(line.take(r).last() == line[r - 1]);
    }
}

/// Run `r` of the line is the kept run at its place.
proof fn lemma_place<N>(line: Seq<GlyphRun<N>>, r: int)
    requires
        0 <= r < line.len(),
        has_glyphs(line[r]),
    ensures
        0 <= place(line, r) < shape::kept_runs(line).len(),
        shape::kept_runs(line)[place(line, r)] == line[r],
{
    let is_kept = |run: GlyphRun<N>| run.is_kept();
    lemma_place_of_prefix(line, r);
    assert(line.take(r + 1).drop_last() =~= line.take(r));
    assert(line.take(r + 1).last() == line[r]);
    assert(line.take(r + 1).filter(is_kept) == line.take(r).filter(is_kept).push(line[r])) by {
        reveal(Seq::filter);
    }
    assert(line =~= line.take(r + 1) + line.skip(r + 1));
    Seq::filter_distributes_over_add(line.take(r + 1), line.skip(r + 1), is_kept);
}

/// What shaping makes of run `r` of the line.
proof fn lemma_shaped_from<'a, I, N: Copy>(
    call: ShapeCall<'a, I, N>,
    shaped: Vec<ShapedRun<'a, I, N>>,
    r: int,
)
    requires
        call.gives(shaped),
        call.item_text@.len() > 0,
        call.item_infos@.len() > 0,
        0 <= r < call.line@.len(),
        has_glyphs(call.line@[r]),
    ensures
        0 <= place(call.line@, r) < shaped@.len(),
        shaped@.len() == shape::kept_runs(call.line@).len(),
        call.line@[r].is_kept(),
        shape::kept_runs(call.line@)[place(call.line@, r)] == call.line@[r],
        shape::is_shaped_run(
            shaped@[place(call.line@, r)],
            shape::kept_runs(call.line@),
            place(call.line@, r),
            *call.item,
            call.style(),
            call.item_text@,
            call.item_infos@,
            call.text_start as int,
            call.line_width,
        ),
{
    lemma_place(call.line@, r);
}

/// An item without text or without characters has no runs. Otherwise it has one
/// run for each run of the line with a font and glyphs, and no other.
pub proof fn law_each_run_with_glyphs_is_shaped<'a, I, N: Copy>(
    call: ShapeCall<'a, I, N>,
    shaped: Vec<ShapedRun<'a, I, N>>,
    r: int,
)
    requires
        call.gives(shaped),
    ensures
        call.item_text@.len() == 0 ==> shaped@.len() == 0,
        call.item_infos@.len() == 0 ==> shaped@.len() == 0,
        call.item_text@.len() > 0 && call.item_infos@.len() > 0 ==> {
            &&& shaped@.len() == place(call.line@, call.line@.len() as int)
            &&& 0 <= r < call.line@.len() && call.line@[r].font is Some
                && call.line@[r].glyphs@.len() > 0 && call.line@[r].positions@.len() > 0
                && call.line@[r].string_indices@.len() > 0 ==> 0 <= place(call.line@, r)
                < shaped@.len()
        },
{
    let n = call.line@.len() as int;
    lemma_place_of_prefix(call.line@, n);
    assert(call.line@.take(n) =~= call.line@);
    if 0 <= r < n && has_glyphs(call.line@[r]) {
        lemma_place(call.line@, r);
    }
}

/// Runs keep their order: of two runs with glyphs the one that stands later in
/// the line is shaped to a later run, and the first one to the first.
pub proof fn law_runs_keep_their_order<N>(line: Seq<GlyphRun<N>>, q: int, r: int)
    requires
        0 <= q < r <= line.len(),
    ensures
        0 <= place(line, q) <= place(line, r),
        has_glyphs(line[q]) ==> place(line, q) < place(line, r),
        (forall|m: int| 0 <= m < r ==> has_glyphs(#[trigger] line[m])) ==> place(line, r) == r,
{
    lemma_place_grows(line, q, r);
    lemma_place_in_full_line(line, r);
    lemma_place_grows(line, 0, q);
}

proof fn lemma_place_grows<N>(line: Seq<GlyphRun<N>>, q: int, r: int)
    requires
        0 <= q <= r <= line.len(),
    ensures
        place(line, q) <= place(line, r),
        q < r && has_glyphs(line[q]) ==> place(line, q) < place(line, r),
    decreases r,
{
    if q < r {
        lemma_place_grows(line, q, r - 1);
    }
}

proof fn lemma_place_in_full_line<N>(line: Seq<GlyphRun<N>>, r: int)
    requires
        0 <= r <= line.len(),
    ensures
        (forall|m: int| 0 <= m < r ==> has_glyphs(#[trigger] line[m])) ==> place(line, r) == r,
    decreases r,
{
    if r > 0 {
        lemma_place_in_full_line(line, r - 1);
        if forall|m: int| 0 <= m < r ==> has_glyphs(#[trigger] line[m]) {
            assert(has_glyphs(line[r - 1]));
        }
    }
}

/// A run has the identity, the size and the metrics of its own font, wherever
/// it stands in the line.
pub proof fn law_run_has_its_own_font<'a, I, N: Copy>(
    call: ShapeCall<'a, I, N>,
    shaped: Vec<ShapedRun<'a, I, N>>,
    r: int,
)
    requires
        call.gives(shaped),
        call.item_text@.len() > 0,
        call.item_infos@.len() > 0,
        0 <= r < call.line@.len(),
        has_glyphs(call.line@[r]),
    ensures
        ({
            let run = shaped@[place(call.line@, r)];
            let font = call.line@[r].font->0;
            &&& run.native_font.postscript_name@ == font.postscript_name@
            &&& run.native_font.family_name@ == font.family_name@
            &&& run.native_font.size == font.pt_size
            &&& run.native_font.color == (font.symbolic_traits & (1u32 << 13) != 0)
            &&& run.font_size == font.pt_size
            &&& run.metrics.ascent == font.metrics.ascent
            &&& run.metrics.descent == font.metrics.descent
            &&& run.metrics.leading == font.metrics.leading
            &&& run.metrics.underline_offset == font.metrics.underline_offset
            &&& run.metrics.underline_size == font.metrics.underline_size
            &&& run.metrics.cap_height == font.metrics.cap_height
            &&& run.metrics.x_height == font.metrics.x_height
        }),
{
    lemma_shaped_from(call, shaped, r);
    let traits = call.line@[r].font->0.symbolic_traits;
    assert((traits & (1u32 << 13) != 0) == ((traits / 0x2000) % 2 == 1)) by (bit_vector);
}

/// What a run has of its font rests on that font alone: two lines that have the
/// same font in one of their runs give the same identity, size and metrics
/// there, whatever the other runs and the two items are.
pub proof fn law_other_fonts_do_not_matter<'a, I, N: Copy>(
    call: ShapeCall<'a, I, N>,
    shaped: Vec<ShapedRun<'a, I, N>>,
    r: int,
    other: ShapeCall<'a, I, N>,
    other_shaped: Vec<ShapedRun<'a, I, N>>,
    other_r: int,
)
    requires
        call.gives(shaped),
        call.item_text@.len() > 0,
        call.item_infos@.len() > 0,
        0 <= r < call.line@.len(),
        has_glyphs(call.line@[r]),
        other.gives(other_shaped),
        other.item_text@.len() > 0,
        other.item_infos@.len() > 0,
        0 <= other_r < other.line@.len(),
        has_glyphs(other.line@[other_r]),
        call.line@[r].font == other.line@[other_r].font,
    ensures
        shaped@[place(call.line@, r)].native_font == other_shaped@[place(
            other.line@,
            other_r,
        )].native_font,
        shaped@[place(call.line@, r)].font_size == other_shaped@[place(
            other.line@,
            other_r,
        )].font_size,
        shaped@[place(call.line@, r)].metrics == other_shaped@[place(other.line@, other_r)].metrics,
{
    lemma_shaped_from(call, shaped, r);
    lemma_shaped_from(other, other_shaped, other_r);
}

/// Every run carries what the item and its own style ask for.
pub proof fn law_run_carries_item_and_style<'a, I, N: Copy>(
    call: ShapeCall<'a, I, N>,
    shaped: Vec<ShapedRun<'a, I, N>>,
    j: int,
)
    requires
        call.gives(shaped),
        0 <= j < shaped@.len(),
    ensures
        shaped@[j].font_attrs.width == call.styles@[call.item.style_index as int].font_width,
        shaped@[j].font_attrs.style == call.styles@[call.item.style_index as int].font_style,
        shaped@[j].font_attrs.weight == call.styles@[call.item.style_index as int].font_weight,
        shaped@[j].bidi_level == call.item.level,
        shaped@[j].style_index == call.item.style_index,
        shaped@[j].word_spacing == call.item.word_spacing,
        shaped@[j].letter_spacing == call.item.letter_spacing,
{
}

/// The glyphs of a run are those of CoreText's run, in order, up to the first
/// one that lacks its number, its position or its code unit: each has exactly
/// the number and the position that CoreText gave.
pub proof fn law_glyphs_are_those_of_the_line<'a, I, N: Copy>(
    call: ShapeCall<'a, I, N>,
    shaped: Vec<ShapedRun<'a, I, N>>,
    r: int,
    i: int,
)
    requires
        call.gives(shaped),
        call.item_text@.len() > 0,
        call.item_infos@.len() > 0,
        0 <= r < call.line@.len(),
        has_glyphs(call.line@[r]),
    ensures
        ({
            let glyphs = shaped@[place(call.line@, r)].glyphs@;
            let run = call.line@[r];
            &&& glyphs.len() > 0
            &&& glyphs.len() <= run.glyphs@.len()
            &&& glyphs.len() <= run.positions@.len()
            &&& glyphs.len() <= run.string_indices@.len()
            &&& glyphs.len() == run.glyphs@.len() || glyphs.len() == run.positions@.len()
                || glyphs.len() == run.string_indices@.len()
            &&& 0 <= i < glyphs.len() ==> {
                &&& glyphs[i].id as int == run.glyphs@[i] as int
                &&& glyphs[i].x == run.positions@[i].0
                &&& glyphs[i].y == run.positions@[i].1
            }
        }),
{
    lemma_shaped_from(call, shaped, r);
}

/// Glyph numbers are kept apart: two glyphs, of one run or of two, have the same
/// number only where CoreText gave them the same one, and `.notdef`, number 0,
/// comes only where CoreText gave it.
pub proof fn law_glyph_numbers_are_kept_apart<'a, I, N: Copy>(
    call: ShapeCall<'a, I, N>,
    shaped: Vec<ShapedRun<'a, I, N>>,
    q: int,
    h: int,
    r: int,
    i: int,
)
    requires
        call.gives(shaped),
        call.item_text@.len() > 0,
        call.item_infos@.len() > 0,
        0 <= q < call.line@.len(),
        0 <= r < call.line@.len(),
        has_glyphs(call.line@[q]),
        has_glyphs(call.line@[r]),
        0 <= h < shaped@[place(call.line@, q)].glyphs@.len(),
        0 <= i < shaped@[place(call.line@, r)].glyphs@.len(),
    ensures
        shaped@[place(call.line@, q)].glyphs@[h].id == shaped@[place(call.line@, r)].glyphs@[i].id
            <==> call.line@[q].glyphs@[h] == call.line@[r].glyphs@[i],
        shaped@[place(call.line@, r)].glyphs@[i].id == 0 <==> call.line@[r].glyphs@[i] == 0,
{
    law_glyphs_are_those_of_the_line(call, shaped, q, h);
    law_glyphs_are_those_of_the_line(call, shaped, r, i);
}

/// Each glyph's advance ends where the next glyph of the shaped runs stands,
/// also from one run to the next, and that of the last glyph at the width of
/// the line.
pub proof fn law_advances_end_at_the_next_glyph<'a, I, N: Copy>(
    call: ShapeCall<'a, I, N>,
    shaped: Vec<ShapedRun<'a, I, N>>,
    j: int,
    i: int,
)
    requires
        call.gives(shaped),
        0 <= j < shaped@.len(),
        0 <= i < shaped@[j].glyphs@.len(),
    ensures
        i + 1 < shaped@[j].glyphs@.len() ==> shaped@[j].glyphs@[i].end_x == shaped@[j].glyphs@[i
            + 1].x,
        i + 1 == shaped@[j].glyphs@.len() && j + 1 < shaped@.len() ==> {
            &&& shaped@[j + 1].glyphs@.len() > 0
            &&& shaped@[j].glyphs@[i].end_x == shaped@[j + 1].glyphs@[0].x
        },
        i + 1 == shaped@[j].glyphs@.len() && j + 1 == shaped@.len()
            ==> shaped@[j].glyphs@[i].end_x == call.line_width,
{
    shape::law_advances_reach_the_next_glyph(
        shaped@,
        j,
        i,
        call.line@,
        *call.item,
        call.style(),
        call.item_text@,
        call.item_infos@,
        call.text_start as int,
        call.line_width,
    );
}

/// The least and the greatest code unit of a run.
proof fn lemma_ends_of_indices(indices: Seq<isize>, i: int)
    requires
        0 <= i < indices.len(),
    ensures
        (forall|m: int| 0 <= m < indices.len() ==> indices[i] <= #[trigger] indices[m])
            ==> runs::least(indices) == indices[i],
        (forall|m: int| 0 <= m < indices.len() ==> #[trigger] indices[m] <= indices[i])
            ==> runs::greatest(indices) == indices[i],
{
    runs::lemma_least_and_greatest(indices);
    let low = choose|m: int| 0 <= m < indices.len() && indices[m] == runs::least(indices);
    let high = choose|m: int| 0 <= m < indices.len() && indices[m] == runs::greatest(indices);
    assert(indices[low] == runs::least(indices));
    assert(indices[high] == runs::greatest(indices));
}

/// The text of a run starts with the character of its least code unit. It
/// starts at the end of the item where that unit is the end of the text, and at
/// the start of the item where that unit is neither in the text nor its end.
pub proof fn law_run_starts_at_its_least_unit<'a, I, N: Copy>(
    call: ShapeCall<'a, I, N>,
    shaped: Vec<ShapedRun<'a, I, N>>,
    r: int,
    i: int,
    k: int,
)
    requires
        call.gives(shaped),
        call.item_text@.len() > 0,
        call.item_infos@.len() > 0,
        0 <= r < call.line@.len(),
        has_glyphs(call.line@[r]),
        0 <= i < shaped@[place(call.line@, r)].glyphs@.len(),
        forall|m: int|
            0 <= m < shaped@[place(call.line@, r)].glyphs@.len()
                ==> call.line@[r].string_indices@[i] <= #[trigger] call.line@[r].string_indices@[m],
    ensures
        ({
            let text = call.item_text@;
            let unit = call.line@[r].string_indices@[i] as int;
            let start = shaped@[place(call.line@, r)].text_range.start - call.text_start;
            &&& unit_in_char(text, unit, k) ==> start == encode_utf8(text.take(k)).len()
            &&& unit == utf16::encode_utf16(text).len() ==> start == encode_utf8(text).len()
            &&& unit < 0 || unit > utf16::encode_utf16(text).len() ==> start == 0
        }),
{
    lemma_shaped_from(call, shaped, r);
    lemma_places(call.item_text@);
    let text = call.item_text@;
    let indices = call.line@[r].indices();
    assert forall|m: int| 0 <= m < indices.len() implies indices[i] <= #[trigger] indices[m] by {
        assert(indices[m] == call.line@[r].string_indices@[m]);
    }
    lemma_ends_of_indices(indices, i);
    if unit_in_char(text, indices[i] as int, k) {
        assert(byte_at(text, k) == text::byte_offset(text, k));
    }
    assert(byte_at(text, text.len() as int) == text::byte_offset(text, text.len() as int));
    assert(text.take(0) =~= Seq::<char>::empty());
}

/// The text of a run ends after the character of its greatest code unit, and at
/// the end of the item where that unit is not in the text.
pub proof fn law_run_ends_after_its_greatest_unit<'a, I, N: Copy>(
    call: ShapeCall<'a, I, N>,
    shaped: Vec<ShapedRun<'a, I, N>>,
    r: int,
    i: int,
    k: int,
)
    requires
        call.gives(shaped),
        call.item_text@.len() > 0,
        call.item_infos@.len() > 0,
        0 <= r < call.line@.len(),
        has_glyphs(call.line@[r]),
        0 <= i < shaped@[place(call.line@, r)].glyphs@.len(),
        forall|m: int|
            0 <= m < shaped@[place(call.line@, r)].glyphs@.len()
                ==> #[trigger] call.line@[r].string_indices@[m] <= call.line@[r].string_indices@[i],
    ensures
        ({
            let text = call.item_text@;
            let unit = call.line@[r].string_indices@[i] as int;
            let end = shaped@[place(call.line@, r)].text_range.end - call.text_start;
            &&& unit_in_char(text, unit, k) ==> end == encode_utf8(text.take(k + 1)).len()
            &&& unit < 0 || unit >= utf16::encode_utf16(text).len() ==> end == encode_utf8(
                text,
            ).len()
        }),
{
    lemma_shaped_from(call, shaped, r);
    lemma_places(call.item_text@);
    let text = call.item_text@;
    let indices = call.line@[r].indices();
    assert forall|m: int| 0 <= m < indices.len() implies #[trigger] indices[m] <= indices[i] by {
        assert(indices[m] == call.line@[r].string_indices@[m]);
    }
    lemma_ends_of_indices(indices, i);
    if unit_in_char(text, indices[i] as int, k) {
        assert(byte_at(text, k + 1) == text::byte_offset(text, k + 1));
    }
    assert(byte_at(text, text.len() as int) == text::byte_offset(text, text.len() as int));
}

/// The text of a run is what stands in the item's text at the run's place: its
/// bytes are those between the ends of the range.
pub proof fn law_run_text_stands_at_its_range<'a, I, N: Copy>(
    call: ShapeCall<'a, I, N>,
    shaped: Vec<ShapedRun<'a, I, N>>,
    j: int,
)
    requires
        call.gives(shaped),
        0 <= j < shaped@.len(),
    ensures
        ({
            let bytes = encode_utf8(call.item_text@);
            let start = shaped@[j].text_range.start - call.text_start;
            let end = shaped@[j].text_range.end - call.text_start;
            &&& 0 <= start <= end <= bytes.len()
            &&& is_char_boundary(bytes, start)
            &&& is_char_boundary(bytes, end)
            &&& encode_utf8(shaped@[j].text@) == bytes.subrange(start, end)
        }),
{
    let text = call.item_text@;
    let kept = shape::kept_runs(call.line@);
    shape::lemma_kept_runs(call.line@, j);
    let indices = kept[j].indices();
    let first = runs::first_char(text, indices);
    let end = runs::end_char(text, indices);
    runs::law_run_text_is_a_slice(text, indices);
    lemma_places(text);
    lemma_encoded_subrange(text, first, end);
}

proof fn lemma_encoded_subrange(text: Seq<char>, a: int, b: int)
    requires
        0 <= a <= b <= text.len(),
    ensures
        encode_utf8(text.subrange(a, b)) == encode_utf8(text).subrange(
            text::byte_offset(text, a) as int,
            text::byte_offset(text, b) as int,
        ),
{
    let head = text.take(b);
    text::lemma_split(text, b);
    text::lemma_split(head, a);
    assert(head.take(a) =~= text.take(a));
    assert(head.skip(a) =~= text.subrange(a, b));
    text::lemma_byte_len_is_encoded_len(head);
    text::lemma_byte_len_is_encoded_len(text);
    text::lemma_offsets_increase(text, a, b);
    assert(encode_utf8(text.subrange(a, b)) =~= encode_utf8(text).subrange(
        text::byte_offset(text, a) as int,
        text::byte_offset(text, b) as int,
    ));
}

/// A run carries the entries of its own characters, at every level: the
/// character at position `p` of the run's text is the item's character `c` that
/// stands at the same byte, and entry `p` of the run is the item's entry `c`,
/// where the item has one; the run has no other entries.
pub proof fn law_entries_are_those_of_the_characters<'a, I, N: Copy>(
    call: ShapeCall<'a, I, N>,
    shaped: Vec<ShapedRun<'a, I, N>>,
    j: int,
    p: int,
    c: int,
)
    requires
        call.gives(shaped),
        0 <= j < shaped@.len(),
        0 <= p < shaped@[j].text@.len(),
        0 <= c < call.item_text@.len(),
        encode_utf8(call.item_text@.take(c)).len() == shaped@[j].text_range.start - call.text_start
            + encode_utf8(shaped@[j].text@.take(p)).len(),
    ensures
        shaped@[j].text@[p] == call.item_text@[c],
        shaped@[j].infos@.len() <= shaped@[j].text@.len(),
        p < shaped@[j].infos@.len() <==> c < call.item_infos@.len(),
        p < shaped@[j].infos@.len() ==> shaped@[j].infos@[p] == call.item_infos@[c],
{
    let text = call.item_text@;
    let run = shaped@[j];
    let kept = shape::kept_runs(call.line@);
    shape::lemma_kept_runs(call.line@, j);
    let indices = kept[j].indices();
    let first = runs::first_char(text, indices);
    let end = runs::end_char(text, indices);
    runs::law_run_text_is_a_slice(text, indices);
    lemma_places(text);
    lemma_places(run.text@);
    assert(byte_at(text, c) == text::byte_offset(text, c));
    assert(byte_at(run.text@, p) == text::byte_offset(run.text@, p));
    assert(text.take(first + p) =~= text.take(first) + run.text@.take(p));
    text::lemma_len_concat(text.take(first), run.text@.take(p));
    assert(c == first + p) by {
        if c < first + p {
            text::lemma_offsets_increase(text, c, first + p);
        } else if first + p < c {
            text::lemma_offsets_increase(text, first + p, c);
        }
    }
}

/// A run never carries more entries than it has characters, so one without text
/// carries none. Where every character of the item has an entry, it carries
/// just as many.
pub proof fn law_run_has_an_entry_per_character<'a, I, N: Copy>(
    call: ShapeCall<'a, I, N>,
    shaped: Vec<ShapedRun<'a, I, N>>,
    j: int,
)
    requires
        call.gives(shaped),
        0 <= j < shaped@.len(),
    ensures
        shaped@[j].infos@.len() <= shaped@[j].text@.len(),
        call.item_infos@.len() >= call.item_text@.len() ==> shaped@[j].infos@.len()
            == shaped@[j].text@.len(),
{
    shape::lemma_kept_runs(call.line@, j);
    runs::law_run_text_is_a_slice(
        call.item_text@,
        shape::kept_runs(call.line@)[j].indices(),
    );
}

/// Every position of a run's text stands at a character of the item.
pub proof fn law_run_characters_are_item_characters<'a, I, N: Copy>(
    call: ShapeCall<'a, I, N>,
    shaped: Vec<ShapedRun<'a, I, N>>,
    j: int,
    p: int,
) -> (c: int)
    requires
        call.gives(shaped),
        0 <= j < shaped@.len(),
        0 <= p < shaped@[j].text@.len(),
    ensures
        0 <= c < call.item_text@.len(),
        call.item_text@[c] == shaped@[j].text@[p],
        encode_utf8(call.item_text@.take(c)).len() == shaped@[j].text_range.start - call.text_start
            + encode_utf8(shaped@[j].text@.take(p)).len(),
{
    let text = call.item_text@;
    let run = shaped@[j];
    shape::lemma_kept_runs(call.line@, j);
    let indices = shape::kept_runs(call.line@)[j].indices();
    let first = runs::first_char(text, indices);
    runs::law_run_text_is_a_slice(text, indices);
    lemma_places(text);
    lemma_places(run.text@);
    assert(byte_at(text, first + p) == text::byte_offset(text, first + p));
    assert(byte_at(run.text@, p) == text::byte_offset(run.text@, p));
    assert(text.take(first + p) =~= text.take(first) + run.text@.take(p));
    text::lemma_len_concat(text.take(first), run.text@.take(p));
    first + p
}

/// A glyph's offset, counted from the start of its run, is where the character
/// of its code unit starts, and the end of the item's text where that unit is
/// in no character.
pub proof fn law_offsets_point_at_characters<'a, I, N: Copy>(
    call: ShapeCall<'a, I, N>,
    shaped: Vec<ShapedRun<'a, I, N>>,
    r: int,
    i: int,
    k: int,
)
    requires
        call.gives(shaped),
        call.item_text@.len() > 0,
        call.item_infos@.len() > 0,
        0 <= r < call.line@.len(),
        has_glyphs(call.line@[r]),
        0 <= i < shaped@[place(call.line@, r)].glyphs@.len(),
    ensures
        ({
            let text = call.item_text@;
            let unit = call.line@[r].string_indices@[i] as int;
            let run = shaped@[place(call.line@, r)];
            let byte = run.text_range.start - call.text_start + run.glyphs@[i].offset;
            &&& unit_in_char(text, unit, k) ==> byte == encode_utf8(text.take(k)).len()
            &&& unit < 0 || unit >= utf16::encode_utf16(text).len() ==> byte == encode_utf8(
                text,
            ).len()
        }),
{
    lemma_shaped_from(call, shaped, r);
    let text = call.item_text@;
    let run = call.line@[r];
    let indices = run.indices();
    let index = run.string_indices@[i];
    let unit = index as int;
    let low = runs::least(indices) as int;
    let n = text.len() as int;
    lemma_places(text);
    assert(indices[i] == index);
    runs::lemma_least_and_greatest(indices);
    runs::law_run_text_is_a_slice(text, indices);
    let first = runs::first_char(text, indices);
    text::lemma_offsets_increase(text, first, n);
    assert(byte_at(text, n) == text::byte_offset(text, n));
    assert(runs::start_byte(text, indices) <= runs::glyph_byte(text, index)) by {
        if 0 <= unit <= text::unit_len(text) {
            text::lemma_char_at_unit_increases(text, unit, unit);
            let at = text::char_at_unit(text, unit);
            if 0 <= low {
                text::lemma_char_at_unit_increases(text, low, unit);
            }
            text::lemma_offsets_increase(text, first, at);
        }
    }
    if unit_in_char(text, unit, k) {
        assert(byte_at(text, k) == text::byte_offset(text, k));
    }
}

/// Whether `i` is a glyph of the run with number, position and code unit.
pub open spec fn is_known_glyph<N>(run: GlyphRun<N>, i: int) -> bool {
    &&& 0 <= i < run.glyphs@.len()
    &&& i < run.positions@.len()
    &&& i < run.string_indices@.len()
}

/// Whether no glyph of the run has a code unit below that of glyph `i`.
pub open spec fn is_least_glyph<N>(run: GlyphRun<N>, i: int) -> bool {
    &&& is_known_glyph(run, i)
    &&& forall|m: int|
        is_known_glyph(run, m) ==> run.string_indices@[i] <= #[trigger] run.string_indices@[m]
}

/// Whether no glyph of the run has a code unit above that of glyph `i`.
pub open spec fn is_greatest_glyph<N>(run: GlyphRun<N>, i: int) -> bool {
    &&& is_known_glyph(run, i)
    &&& forall|m: int|
        is_known_glyph(run, m) ==> #[trigger] run.string_indices@[m] <= run.string_indices@[i]
}

/// Whether the character of code unit `unit`, or the end of the text where the
/// unit stands there, comes after the first `entries` characters.
pub open spec fn starts_late(text: Seq<char>, unit: int, entries: int) -> bool {
    ||| exists|k: int| #[trigger] unit_in_char(text, unit, k) && k > entries
    ||| unit == utf16::encode_utf16(text).len() && text.len() > entries
}

/// Whether the end of the character of code unit `unit`, or the end of the text
/// where the unit is in no character, lies too far to be counted from `text_start`.
pub open spec fn ends_beyond(text: Seq<char>, unit: int, text_start: int) -> bool {
    ||| exists|k: int|
        #[trigger] unit_in_char(text, unit, k) && text_start + encode_utf8(text.take(k + 1)).len()
            > usize::MAX
    ||| (unit < 0 || unit >= utf16::encode_utf16(text).len()) && text_start + encode_utf8(
        text,
    ).len() > usize::MAX
}

/// A line fits exactly where no run with glyphs starts after the entries or ends
/// too far.
pub proof fn law_line_fits_where_every_run_does<I, N>(
    item_text: &str,
    item_infos: &[I],
    text_start: usize,
    line: &[GlyphRun<N>],
    fits: bool,
)
    requires
        call_ensures(line_fits::<I, N>, (item_text, item_infos, text_start, line), fits),
    ensures
        fits <==> forall|r: int, i: int|
            #![trigger line@[r].string_indices@[i]]
            0 <= r < line@.len() && has_glyphs(line@[r]) ==> {
                let unit = line@[r].string_indices@[i] as int;
                &&& is_least_glyph(line@[r], i) ==> !starts_late(
                    item_text@,
                    unit,
                    item_infos@.len() as int,
                )
                &&& is_greatest_glyph(line@[r], i) ==> !ends_beyond(
                    item_text@,
                    unit,
                    text_start as int,
                )
            },
{
    let text = item_text@;
    let entries = item_infos@.len() as int;
    let start = text_start as int;
    lemma_places(text);
    if fits {
        assert forall|r: int, i: int|
            #![trigger line@[r].string_indices@[i]]
            0 <= r < line@.len() && has_glyphs(line@[r]) implies {
            let unit = line@[r].string_indices@[i] as int;
            &&& is_least_glyph(line@[r], i) ==> !starts_late(text, unit, entries)
            &&& is_greatest_glyph(line@[r], i) ==> !ends_beyond(text, unit, start)
        } by {
            assert(shape::run_fits(line@[r], text, entries, start));
            lemma_run_fits(text, entries, start, line@[r], i);
        }
    } else {
        let r = choose|r: int|
            0 <= r < line@.len() && !shape::run_fits(#[trigger] line@[r], text, entries, start);
        let run = line@[r];
        let indices = run.indices();
        runs::lemma_least_and_greatest(indices);
        let low = choose|m: int| 0 <= m < indices.len() && indices[m] == runs::least(indices);
        let high = choose|m: int| 0 <= m < indices.len() && indices[m] == runs::greatest(indices);
        assert(run.string_indices@[low] == runs::least(indices));
        assert(run.string_indices@[high] == runs::greatest(indices));
        assert forall|m: int| is_known_glyph(run, m) implies runs::least(indices)
            <= #[trigger] run.string_indices@[m] <= runs::greatest(indices) by {
            assert(indices[m] == run.string_indices@[m]);
        }
        assert(is_least_glyph(run, low));
        assert(is_greatest_glyph(run, high));
        lemma_run_fits(text, entries, start, run, low);
        lemma_run_fits(text, entries, start, run, high);
        assert(has_glyphs(line@[r]));
        assert(starts_late(text, line@[r].string_indices@[low] as int, entries) || ends_beyond(
            text,
            line@[r].string_indices@[high] as int,
            start,
        ));
    }
}

/// What the two ends of a run say of its fitting.
proof fn lemma_run_fits<N>(text: Seq<char>, entries: int, start: int, run: GlyphRun<N>, i: int)
    requires
        has_glyphs(run),
        entries >= 0,
    ensures
        is_least_glyph(run, i) ==> (starts_late(text, run.string_indices@[i] as int, entries)
            <==> runs::first_char(text, run.indices()) > entries),
        is_greatest_glyph(run, i) ==> (ends_beyond(text, run.string_indices@[i] as int, start)
            <==> start + runs::end_byte(text, run.indices()) > usize::MAX),
{
    lemma_places(text);
    let n = text.len() as int;
    let indices = run.indices();
    let unit = run.string_indices@[i] as int;
    assert(byte_at(text, n) == text::byte_offset(text, n));
    if is_known_glyph(run, i) {
        assert(indices[i] == run.string_indices@[i]);
        assert(is_least_glyph(run, i) ==> runs::least(indices) == unit) by {
            if is_least_glyph(run, i) {
                assert forall|m: int| 0 <= m < indices.len() implies indices[i]
                    <= #[trigger] indices[m] by {
                    assert(is_known_glyph(run, m) && indices[m] == run.string_indices@[m]);
                }
                lemma_ends_of_indices(indices, i);
            }
        }
        assert(is_greatest_glyph(run, i) ==> runs::greatest(indices) == unit) by {
            if is_greatest_glyph(run, i) {
                assert forall|m: int| 0 <= m < indices.len() implies #[trigger] indices[m]
                    <= indices[i] by {
                    assert(is_known_glyph(run, m) && indices[m] == run.string_indices@[m]);
                }
                lemma_ends_of_indices(indices, i);
            }
        }
        if 0 <= unit < text::unit_len(text) {
            let k = lemma_unit_has_char(text, unit);
            assert(byte_at(text, k + 1) == text::byte_offset(text, k + 1));
            assert forall|other: int| #[trigger] unit_in_char(text, unit, other) implies other
                == k by {}
        } else {
            assert forall|other: int| !#[trigger] unit_in_char(text, unit, other) by {}
        }
    }
}

/// Where every character has an entry and the end of the item can be counted,
/// every line fits.
pub proof fn law_item_with_all_entries_fits<I, N>(
    item_text: &str,
    item_infos: &[I],
    text_start: usize,
    line: &[GlyphRun<N>],
    fits: bool,
)
    requires
        call_ensures(line_fits::<I, N>, (item_text, item_infos, text_start, line), fits),
        item_infos@.len() >= item_text@.len(),
        text_start + encode_utf8(item_text@).len() <= usize::MAX,
    ensures
        fits,
{
    lemma_places(item_text@);
    assert forall|r: int| 0 <= r < line@.len() implies shape::run_fits(
        #[trigger] line@[r],
        item_text@,
        item_infos@.len() as int,
        text_start as int,
    ) by {
        shape::law_one_entry_per_char_fits(line@[r], item_text@, text_start as int);
    }
}

/// Every call may be made that the text, the entries, the styles and the line
/// allow: a line can be planned and shaped for an item without text or without
/// characters whatever else is given, and for any other item as soon as its
/// style is in the table and, for shaping, the line was found to fit.
pub proof fn law_what_fits_can_be_shaped<'a, I, N: Copy>(
    call: ShapeCall<'a, I, N>,
    families: &MacFamilyNames,
    fits: bool,
)
    requires
        call_ensures(
            line_fits::<I, N>,
            (call.item_text, call.item_infos, call.text_start, call.line),
            fits,
        ),
    ensures
        call_requires(
            line_fits::<I, N>,
            (call.item_text, call.item_infos, call.text_start, call.line),
        ),
        call.item_text@.len() == 0 || call.item_infos@.len() == 0 || call.item.style_index
            < call.styles@.len() ==> call_requires(
            plan_fonts::<I, N>,
            (call.styles, call.item, call.item_text, call.item_infos, families),
        ),
        call.item_text@.len() == 0 || call.item_infos@.len() == 0 || (fits && call.item.style_index
            < call.styles@.len()) ==> call_requires(
            shape_item_coretext::<I, N>,
            (
                call.styles,
                call.item,
                call.item_text,
                call.item_infos,
                call.text_start,
                call.line,
                call.line_width,
            ),
        ),
{
}

/// The level of an item and the place of its text change nothing else: shaped
/// at another level and another place, the item has the same runs, with the
/// other level, and their ranges moved as the text was.
pub proof fn law_level_and_place_change_nothing_else<'a, I, N: Copy>(
    call: ShapeCall<'a, I, N>,
    shaped: Vec<ShapedRun<'a, I, N>>,
    other: ShapeCall<'a, I, N>,
    other_shaped: Vec<ShapedRun<'a, I, N>>,
    j: int,
)
    requires
        call.gives(shaped),
        other.gives(other_shaped),
        other.styles == call.styles,
        *other.item == (Item { level: other.item.level, ..*call.item }),
        other.item_text@ == call.item_text@,
        other.item_infos@ == call.item_infos@,
        other.line@ == call.line@,
        other.line_width == call.line_width,
    ensures
        other_shaped@.len() == shaped@.len(),
        0 <= j < shaped@.len() ==> {
            &&& other_shaped@[j].bidi_level == other.item.level
            &&& other_shaped@[j].text_range.start - other.text_start
                == shaped@[j].text_range.start - call.text_start
            &&& other_shaped@[j].text_range.end - other.text_start == shaped@[j].text_range.end
                - call.text_start
            &&& other_shaped@[j].text@ == shaped@[j].text@
            &&& other_shaped@[j].infos@ == shaped@[j].infos@
            &&& other_shaped@[j].native_font == shaped@[j].native_font
            &&& other_shaped@[j].font_size == shaped@[j].font_size
            &&& other_shaped@[j].font_attrs == shaped@[j].font_attrs
            &&& other_shaped@[j].style_index == shaped@[j].style_index
            &&& other_shaped@[j].word_spacing == shaped@[j].word_spacing
            &&& other_shaped@[j].letter_spacing == shaped@[j].letter_spacing
            &&& other_shaped@[j].metrics == shaped@[j].metrics
            &&& other_shaped@[j].glyphs@ == shaped@[j].glyphs@
        },
{
    if 0 <= j < shaped@.len() {
        let one = shaped@[j];
        let two = other_shaped@[j];
        assert forall|i: int| 0 <= i < one.glyphs@.len() implies #[trigger] two.glyphs@[i]
            == one.glyphs@[i] by {}
        assert(two.glyphs@ =~= one.glyphs@);
    }
}

} // verus!
