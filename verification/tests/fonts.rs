//! Font requests, font identities, family names and writing direction.

use coretext_shape::direction::{
    base_direction, is_rtl, CT_WRITING_DIRECTION_LTR, CT_WRITING_DIRECTION_RTL,
    K_CT_PARAGRAPH_STYLE_SPECIFIER_BASE_WRITING_DIRECTION,
};
use coretext_shape::families::{
    cascade_names, family_names, primary_family, FamilyId, MacFamilyNames,
};
use coretext_shape::font::{
    cascade_list, descriptor_for_family, make_font, with_cascade, CTFontInfo, FontDescriptor,
    FontStyle, FontTrait, MacMetrics, MacNativeFont, CT_FONT_COLOR_GLYPHS_TRAIT,
};
use coretext_shape::shape::{plan_fonts, Item, ResolvedStyle};

fn id(raw: u64) -> FamilyId {
    FamilyId { raw }
}

fn strings(names: &[&str]) -> Vec<String> {
    names.iter().map(|n| n.to_string()).collect()
}

fn info(symbolic_traits: u32) -> CTFontInfo<f32> {
    CTFontInfo {
        postscript_name: "AppleColorEmoji".to_string(),
        family_name: "Apple Color Emoji".to_string(),
        pt_size: 12.5,
        symbolic_traits,
        metrics: MacMetrics {
            ascent: 1.0,
            descent: 2.0,
            leading: 3.0,
            underline_offset: 4.0,
            underline_size: 5.0,
            cap_height: 6.0,
            x_height: 7.0,
        },
    }
}

#[test]
fn names_are_found_again() {
    let mut families = MacFamilyNames::default();
    assert_eq!(families.get(id(64)), None);
    families.insert(id(64), "Menlo");
    families.insert(id(65), "PingFang SC");
    assert_eq!(families.get(id(64)), Some("Menlo"));
    assert_eq!(families.get(id(65)), Some("PingFang SC"));
    assert_eq!(families.get(id(66)), None);
    families.insert(id(64), "Monaco");
    assert_eq!(families.get(id(64)), Some("Monaco"));
    assert_eq!(families.get(id(65)), Some("PingFang SC"));
}

#[test]
fn many_names_are_found_again() {
    let mut families = MacFamilyNames::default();
    for raw in 0..1000u64 {
        families.insert(id(raw), &format!("family {}", raw));
    }
    for raw in 0..1000u64 {
        assert_eq!(families.get(id(raw)), Some(format!("family {}", raw).as_str()));
    }
    assert_eq!(families.get(id(1000)), None);
}

#[test]
fn stack_resolves_to_known_names_in_order() {
    let mut families = MacFamilyNames::default();
    families.insert(id(1), "One");
    families.insert(id(2), "Two");
    families.insert(id(3), "Three");
    let stack = Some(vec![id(3), id(9), id(1), id(3), id(2)]);
    assert_eq!(family_names(&stack, &families), strings(&["Three", "One", "Three", "Two"]));
    assert_eq!(family_names(&Some(vec![id(2), id(1)]), &families), strings(&["Two", "One"]));
    assert_eq!(family_names(&Some(vec![id(9)]), &families).len(), 0);
    assert_eq!(family_names(&None, &families).len(), 0);
}

#[test]
fn primary_family_is_the_first_name_or_helvetica() {
    assert_eq!(primary_family(&strings(&["Menlo", "Monaco"])), "Menlo");
    assert_eq!(primary_family(&[]), "Helvetica");
}

#[test]
fn primary_and_cascade_are_the_stack() {
    let names = strings(&["A", "B", "C"]);
    let mut whole = vec![primary_family(&names)];
    whole.extend(cascade_names(&names));
    assert_eq!(whole, names);
    assert_eq!(cascade_names(&strings(&["A"])).len(), 0);
    assert_eq!(cascade_names(&[]).len(), 0);
}

#[test]
fn upright_font_asks_for_weight_only() {
    let font = make_font("Menlo", 400.0f32, FontStyle::Normal);
    assert_eq!(font.family, "Menlo");
    assert_eq!(font.traits, vec![FontTrait::Weight(400.0)]);
}

#[test]
fn italic_and_oblique_fonts_ask_for_slant() {
    let expected = vec![FontTrait::Weight(700.0f32), FontTrait::Slant(20)];
    assert_eq!(make_font("Menlo", 700.0, FontStyle::Italic).traits, expected);
    assert_eq!(make_font("Menlo", 700.0, FontStyle::Oblique(None)).traits, expected);
    assert_eq!(make_font("Menlo", 700.0, FontStyle::Oblique(Some(9.0))).traits, expected);
}

#[test]
fn family_descriptor_has_no_traits() {
    let descriptor: FontDescriptor<f32> = descriptor_for_family("Monaco");
    assert_eq!(descriptor.family, "Monaco");
    assert!(descriptor.traits.is_empty());
}

#[test]
fn cascade_list_holds_every_family() {
    let list: Vec<FontDescriptor<f32>> = cascade_list(&strings(&["B", "C"])).unwrap();
    let names: Vec<&str> = list.iter().map(|d| d.family.as_str()).collect();
    assert_eq!(names, vec!["B", "C"]);
    assert!(list.iter().all(|d| d.traits.is_empty()));
    let none: Option<Vec<FontDescriptor<f32>>> = cascade_list(&[]);
    assert!(none.is_none());
}

#[test]
fn cascade_that_cannot_be_attached_leaves_the_base_font() {
    assert_eq!(with_cascade("base", Some("cascade")), "cascade");
    assert_eq!(with_cascade("base", None), "base");
}

#[test]
fn native_font_key_describes_the_font() {
    let key = MacNativeFont::from_ctfont(&info(CT_FONT_COLOR_GLYPHS_TRAIT));
    assert_eq!(
        key,
        MacNativeFont {
            postscript_name: "AppleColorEmoji".to_string(),
            family_name: "Apple Color Emoji".to_string(),
            size: 12.5,
            color: true,
        }
    );
    assert_eq!(key, MacNativeFont::from_ctfont(&info(CT_FONT_COLOR_GLYPHS_TRAIT | 1)));
}

#[test]
fn color_goes_by_one_bit_of_the_traits() {
    for bit in 0..32u32 {
        let key = MacNativeFont::from_ctfont(&info(1 << bit));
        assert_eq!(key.color, bit == 13);
        let key = MacNativeFont::from_ctfont(&info(!(1 << bit)));
        assert_eq!(key.color, bit != 13);
    }
}

#[test]
fn odd_levels_go_from_right_to_left() {
    for level in 0..=255u8 {
        assert_eq!(is_rtl(level), level % 2 == 1);
    }
    let rtl = base_direction(true);
    assert_eq!(rtl.specifier, 13);
    assert_eq!(rtl.specifier, K_CT_PARAGRAPH_STYLE_SPECIFIER_BASE_WRITING_DIRECTION);
    assert_eq!((rtl.value, CT_WRITING_DIRECTION_RTL), (1, 1));
    let ltr = base_direction(false);
    assert_eq!(ltr.specifier, 13);
    assert_eq!((ltr.value, CT_WRITING_DIRECTION_LTR), (0, 0));
}

#[test]
fn plan_follows_style_and_level() {
    let mut families = MacFamilyNames::default();
    families.insert(id(1), "Menlo");
    families.insert(id(2), "Monaco");
    families.insert(id(3), "Courier");
    let styles = vec![
        ResolvedStyle {
            font_family: Some(vec![id(1)]),
            font_weight: 400.0f32,
            font_style: FontStyle::Normal,
            font_width: 1.0,
        },
        ResolvedStyle {
            font_family: Some(vec![id(8), id(2), id(3), id(1)]),
            font_weight: 700.0,
            font_style: FontStyle::Italic,
            font_width: 1.0,
        },
    ];
    let mut item = Item { style_index: 0, size: 16.0f32, level: 0, word_spacing: 0.0, letter_spacing: 0.0 };
    let plan = plan_fonts(&styles, &item, "x", &['x'], &families).unwrap();
    assert_eq!(plan.base.family, "Menlo");
    assert_eq!(plan.base.traits, vec![FontTrait::Weight(400.0)]);
    assert_eq!(plan.size, 16.0);
    assert!(plan.cascade.is_none());
    assert_eq!(plan.direction, base_direction(false));

    item.style_index = 1;
    item.size = 9.0;
    item.level = 3;
    let plan = plan_fonts(&styles, &item, "x", &['x'], &families).unwrap();
    assert_eq!(plan.base.family, "Monaco");
    assert_eq!(plan.base.traits, vec![FontTrait::Weight(700.0), FontTrait::Slant(20)]);
    assert_eq!(plan.size, 9.0);
    let cascade: Vec<String> = plan.cascade.unwrap().into_iter().map(|d| d.family).collect();
    assert_eq!(cascade, strings(&["Courier", "Menlo"]));
    assert_eq!(plan.direction, base_direction(true));
}
