//! Font requests that are made of CoreText, and the identity of the fonts that
//! it answers with.
//!
//! Sizes, weights and metrics only pass through: their number type is a
//! parameter `N`.

use vstd::prelude::*;

#[allow(unused_imports)]
use crate::families;

verus! {

/// Slope of a face.
#[derive(Clone, Copy, Debug, PartialEq)]
pub enum FontStyle<N> {
    /// An upright face.
    Normal,
    /// A slanted face with forms of its own.
    Italic,
    /// A slanted upright face, with its angle where one is given.
    Oblique(Option<N>),
}

/// Width, style and weight that a style asks for.
#[derive(Clone, Copy, Debug, PartialEq)]
pub struct Attributes<N> {
    pub width: N,
    pub style: FontStyle<N>,
    pub weight: N,
}

/// An entry of the traits dictionary of a font descriptor.
#[derive(Clone, Copy, Debug, PartialEq)]
pub enum FontTrait<N> {
    /// `kCTFontWeightTrait`.
    Weight(N),
    /// `kCTFontSlantTrait`, in hundredths.
    Slant(u32),
}

/// Slant that is asked for where the style is not upright, in hundredths.
pub const SLANT_HUNDREDTHS: u32 = 20;

/// What a font descriptor is made from: the family name, and the traits. A
/// descriptor without traits has no traits attribute.
#[derive(Debug, PartialEq)]
pub struct FontDescriptor<N> {
    pub family: String,
    pub traits: Vec<FontTrait<N>>,
}

/// The traits that are asked for: the weight always, the slant where the style
/// is italic or oblique.
pub open spec fn font_traits<N>(weight: N, style: FontStyle<N>) -> Seq<FontTrait<N>> {
    match style {
        FontStyle::Normal => seq![FontTrait::Weight(weight)],
        FontStyle::Italic | FontStyle::Oblique(_) => seq![
            FontTrait::Weight(weight),
            FontTrait::Slant(SLANT_HUNDREDTHS),
        ],
    }
}

/// The request for a font of the given family, weight and slant.
pub fn make_font<N: Copy>(family: &str, weight: N, style: FontStyle<N>) -> (descriptor:
    FontDescriptor<N>)
    ensures
        descriptor.family@ == family@,
        descriptor.traits@ == font_traits(weight, style),
{
    let has_slant = match style {
        FontStyle::Normal => false,
        FontStyle::Italic | FontStyle::Oblique(_) => true,
    };
    let mut traits: Vec<FontTrait<N>> = Vec::new();
    traits.push(FontTrait::Weight(weight));
    if has_slant {
        traits.push(FontTrait::Slant(SLANT_HUNDREDTHS));
    }
    FontDescriptor { family: family.to_owned(), traits }
}

/// The request for a family by name alone, for the cascade preference list.
pub fn descriptor_for_family<N>(name: &str) -> (descriptor: FontDescriptor<N>)
    ensures
        descriptor.family@ == name@,
        descriptor.traits@ == Seq::<FontTrait<N>>::empty(),
{
    FontDescriptor { family: name.to_owned(), traits: Vec::new() }
}

/// Whether `cascade` holds one request per name, in order, by name alone.
pub open spec fn requests_families<N>(
    cascade: Seq<FontDescriptor<N>>,
    names: Seq<Seq<char>>,
) -> bool {
    &&& cascade.len() == names.len()
    &&& forall|i: int|
        #![trigger cascade[i]]
        0 <= i < cascade.len() ==> cascade[i].family@ == names[i] && cascade[i].traits@.len() == 0
}

/// The cascade preference list for the families after the primary one, so that
/// CoreText prefers them over its own generic fallback. Without such families
/// the base font is left as it is.
pub fn cascade_list<N>(cascade_names: &[String]) -> (list: Option<Vec<FontDescriptor<N>>>)
    ensures
        list is None <==> cascade_names@.len() == 0,
        list is Some ==> requests_families(list->0@, families::texts(cascade_names@)),
{
    if cascade_names.len() == 0 {
        return None;
    }
    let mut cascade: Vec<FontDescriptor<N>> = Vec::new();
    for k in 0..cascade_names.len()
        invariant
            requests_families(cascade@, families::texts(cascade_names@).take(k as int)),
    {
        cascade.push(descriptor_for_family(cascade_names[k].as_str()));
    }
    proof {
        assert(families::texts(cascade_names@).take(cascade_names@.len() as int)
            =~= families::texts(cascade_names@));
    }
    Some(cascade)
}

/// The font to shape with: the base font with the cascade attached, or the base
/// font itself where there is no cascade or it could not be attached.
pub fn with_cascade<F>(base: F, attached: Option<F>) -> (font: F)
    ensures
        font == (match attached {
            Some(with_list) => with_list,
            None => base,
        }),
{
    match attached {
        Some(with_list) => with_list,
        None => base,
    }
}

/// `kCTFontColorGlyphsTrait`: the font provides color glyphs.
pub const CT_FONT_COLOR_GLYPHS_TRAIT: u32 = 0x2000;

/// Metrics of the font of one run.
#[derive(Clone, Copy, Debug, PartialEq)]
pub struct MacMetrics<N> {
    pub ascent: N,
    pub descent: N,
    pub leading: N,
    pub underline_offset: N,
    pub underline_size: N,
    pub cap_height: N,
    pub x_height: N,
}

/// What CoreText tells of a font.
#[derive(Debug, PartialEq)]
pub struct CTFontInfo<N> {
    pub postscript_name: String,
    pub family_name: String,
    pub pt_size: N,
    pub symbolic_traits: u32,
    pub metrics: MacMetrics<N>,
}

/// Self-describing identity of a CoreText font used by a shaped run.
#[derive(Clone, Debug, PartialEq)]
pub struct MacNativeFont<N> {
    /// PostScript name of the run's font (e.g. `"AppleColorEmoji"`,
    /// `"PingFangSC-Regular"`), by which a consumer finds the font again.
    pub postscript_name: String,
    /// Family name of the run's font.
    pub family_name: String,
    /// Font size in points.
    pub size: N,
    /// Whether the font is color-capable (e.g. Apple Color Emoji).
    pub color: bool,
}

/// Whether bit 13 of the symbolic traits is set, by which CoreText marks a font
/// with color glyphs.
pub open spec fn has_color_glyphs(symbolic_traits: u32) -> bool {
    (symbolic_traits / 0x2000) % 2 == 1
}

/// The identity of the font that CoreText tells `font` of.
pub open spec fn native_font<N>(font: CTFontInfo<N>) -> MacNativeFont<N> {
    MacNativeFont {
        postscript_name: font.postscript_name,
        family_name: font.family_name,
        size: font.pt_size,
        color: has_color_glyphs(font.symbolic_traits),
    }
}

/// The key tells all that finding the font again takes: fonts with the same key
/// have the same PostScript name, family name and size, and are alike in
/// whether they have color glyphs.
pub proof fn law_key_describes_the_font<N>(a: CTFontInfo<N>, b: CTFontInfo<N>)
    requires
        native_font(a) == native_font(b),
    ensures
        a.postscript_name == b.postscript_name,
        a.family_name == b.family_name,
        a.pt_size == b.pt_size,
        has_color_glyphs(a.symbolic_traits) == has_color_glyphs(b.symbolic_traits),
{
}

impl<N: Copy> MacNativeFont<N> {
    /// Builds a self-describing key from what CoreText tells of a font.
    pub fn from_ctfont(font: &CTFontInfo<N>) -> (key: Self)
        ensures
            key == native_font(*font),
    {
        let traits: u32 = font.symbolic_traits;
        proof {
            assert((traits & 0x2000 != 0) == ((traits / 0x2000) % 2 == 1)) by (bit_vector);
        }
        MacNativeFont {
            postscript_name: font.postscript_name.clone(),
            family_name: font.family_name.clone(),
            size: font.pt_size,
            color: traits & CT_FONT_COLOR_GLYPHS_TRAIT != 0,
        }
    }
}

} // verus!
