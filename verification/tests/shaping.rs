//! Items cut into runs.
//!
//! The glyph runs are made by hand, in the shape in which CoreText gives runs
//! for such texts; no font is asked. So what a run summary says of fonts, glyph
//! numbers and glyph counts (no .notdef, one glyph for a ZWJ sequence) shows
//! only that it comes out as it went in. Texts, ranges, entries, offsets and
//! advance ends are computed.

use coretext_shape::direction::{base_direction, is_rtl, CT_WRITING_DIRECTION_RTL};
use coretext_shape::families::{FamilyId, MacFamilyNames};
use coretext_shape::font::{CTFontInfo, FontStyle, FontTrait, MacMetrics};
use coretext_shape::runs::GlyphRun;
use coretext_shape::shape::{
    line_fits, plan_fonts, shape_item_coretext, Item, ResolvedStyle, ShapedRun,
};

const COLOR_GLYPHS: u32 = 0x2000;

fn metrics() -> MacMetrics<f32> {
    MacMetrics {
        ascent: 12.0,
        descent: 4.0,
        leading: 1.0,
        underline_offset: -1.5,
        underline_size: 0.75,
        cap_height: 11.0,
        x_height: 8.0,
    }
}

fn font(postscript_name: &str, symbolic_traits: u32) -> Option<CTFontInfo<f32>> {
    Some(CTFontInfo {
        postscript_name: postscript_name.to_string(),
        family_name: format!("{} family", postscript_name),
        pt_size: 16.0,
        symbolic_traits,
        metrics: metrics(),
    })
}

/// A run whose glyphs stand 10 points apart from `x` on.
fn run(font: Option<CTFontInfo<f32>>, x: f32, indices: &[isize]) -> GlyphRun<f32> {
    let mut glyphs: Vec<u16> = Vec::new();
    let mut positions: Vec<(f32, f32)> = Vec::new();
    for i in 0..indices.len() {
        glyphs.push(40 + i as u16);
        positions.push((x + 10.0 * i as f32, 0.5));
    }
    GlyphRun { font, glyphs, positions, string_indices: indices.to_vec() }
}

fn styles() -> Vec<ResolvedStyle<f32>> {
    vec![ResolvedStyle {
        font_family: Some(vec![FamilyId { raw: 70 }]),
        font_weight: 400.0,
        font_style: FontStyle::Normal,
        font_width: 1.0,
    }]
}

fn item(level: u8) -> Item<f32> {
    Item { style_index: 0, size: 16.0, level, word_spacing: 0.25, letter_spacing: 0.5 }
}

fn infos(text: &str) -> Vec<char> {
    text.chars().collect()
}

fn cut<'a>(
    text: &'a str,
    infos: &'a [char],
    level: u8,
    line: &[GlyphRun<f32>],
    width: f32,
) -> Vec<ShapedRun<'a, char, f32>> {
    assert!(line_fits(text, infos, 100, line));
    shape_item_coretext(&styles(), &item(level), text, infos, 100, line, width)
}

/// PostScript name, color flag and glyph count of each run.
fn run_summary(runs: &[ShapedRun<'_, char, f32>]) -> Vec<(String, bool, usize)> {
    runs.iter()
        .map(|run| {
            (run.native_font.postscript_name.clone(), run.native_font.color, run.glyphs.len())
        })
        .collect()
}

#[test]
fn latin_shapes_as_single_run_with_clusters() {
    let text = "Hello";
    let chars = infos(text);
    let runs = cut(text, &chars, 0, &[run(font("Helvetica", 0), 0.0, &[0, 1, 2, 3, 4])], 50.0);
    let summary = run_summary(&runs);
    assert!(!summary.is_empty(), "expected at least one run");
    let (ps, color, glyphs) = &summary[0];
    assert!(!color, "Latin run must not be color");
    assert_eq!(*glyphs, 5, "Hello should be 5 glyphs");
    assert!(ps.contains("Helvetica"), "unexpected font: {ps}");
    // Clusters must map back to the UTF-8 text: the run covers "Hello".
    assert_eq!(runs.len(), 1);
    assert_eq!(runs[0].text, "Hello");
    assert_eq!(runs[0].text_range, 100..105);
    let offsets: Vec<usize> = runs[0].glyphs.iter().map(|g| g.offset).collect();
    assert_eq!(offsets, vec![0, 1, 2, 3, 4]);
}

#[test]
fn mixed_cjk_emoji_uses_cascade_with_color_run() {
    let text = "Hello 世界 😀";
    let chars = infos(text);
    let line = [
        run(font("Helvetica", 0), 0.0, &[0, 1, 2, 3, 4, 5]),
        run(font("PingFangSC-Regular", 0), 60.0, &[6, 7]),
        run(font("Helvetica", 0), 80.0, &[8]),
        run(font("AppleColorEmoji", COLOR_GLYPHS), 90.0, &[9]),
    ];
    let runs = cut(text, &chars, 0, &line, 110.0);
    let summary = run_summary(&runs);
    assert!(summary.len() >= 3, "expected >=3 runs, got {summary:?}");
    assert!(
        summary.iter().any(|(_, color, _)| *color),
        "expected a color (emoji) run"
    );
    let mut saw_notdef = false;
    for run in &runs {
        if run.glyphs.iter().any(|g| g.id == 0) {
            saw_notdef = true;
        }
    }
    assert!(!saw_notdef, "CoreText cascade must cover all chars (no .notdef)");

    let texts: Vec<&str> = runs.iter().map(|r| r.text).collect();
    assert_eq!(texts, vec!["Hello ", "世界", " ", "😀"]);
    let ranges: Vec<(usize, usize)> =
        runs.iter().map(|r| (r.text_range.start, r.text_range.end)).collect();
    assert_eq!(ranges, vec![(100, 106), (106, 112), (112, 113), (113, 117)]);
    assert_eq!(runs[1].glyphs[1].offset, 3);
    assert_eq!(runs[1].infos, &['世', '界']);
    assert_eq!(runs[3].infos, &['😀']);
}

#[test]
fn arabic_shapes_with_ligatures_intact() {
    let text = "مرحبا";
    let chars = infos(text);
    // Visual order: the last character comes first, and two characters share a glyph.
    let runs = cut(text, &chars, 1, &[run(font("GeezaPro", 0), 0.0, &[4, 3, 1, 0])], 40.0);
    let summary = run_summary(&runs);
    assert!(!summary.is_empty(), "expected Arabic runs");
    assert!(summary[0].2 > 0, "expected glyphs");
    let mut saw_notdef = false;
    for run in &runs {
        if run.glyphs.iter().any(|g| g.id == 0) {
            saw_notdef = true;
        }
    }
    assert!(!saw_notdef);
    assert_eq!(runs[0].text, text);
    assert_eq!(runs[0].text_range, 100..110);
    let offsets: Vec<usize> = runs[0].glyphs.iter().map(|g| g.offset).collect();
    assert_eq!(offsets, vec![8, 6, 2, 0]);
}

#[test]
fn rtl_paragraph_keeps_base_direction() {
    let text = "مرحبا";
    let chars = infos(text);
    let mut families = MacFamilyNames::default();
    families.insert(FamilyId { raw: 70 }, "Helvetica");
    let plan = plan_fonts(&styles(), &item(1), text, &chars, &families).unwrap();
    assert!(is_rtl(1), "expected RTL paragraph");
    assert_eq!(plan.direction, base_direction(true));
    assert_eq!(plan.direction.value, CT_WRITING_DIRECTION_RTL);
    let runs = cut(text, &chars, 1, &[run(font("GeezaPro", 0), 0.0, &[4, 3, 2, 1, 0])], 50.0);
    assert!(!run_summary(&runs).is_empty());
    assert_eq!(runs[0].bidi_level, 1);
    assert!(runs[0].glyphs.iter().all(|g| g.end_x > g.x));
}

#[test]
fn empty_text_produces_no_runs() {
    let line = [run(font("Helvetica", 0), 0.0, &[0])];
    let runs = shape_item_coretext(&styles(), &item(0), "", &['x'], 0, &line, 10.0);
    assert_eq!(run_summary(&runs).len(), 0);
    let none: [char; 0] = [];
    let runs = shape_item_coretext(&styles(), &item(0), "x", &none, 0, &line, 10.0);
    assert_eq!(run_summary(&runs).len(), 0);
    // Nothing is looked up for an item without content.
    let no_styles: [ResolvedStyle<f32>; 0] = [];
    let families = MacFamilyNames::default();
    assert!(plan_fonts(&no_styles, &item(0), "", &['x'], &families).is_none());
    assert!(plan_fonts(&no_styles, &item(0), "x", &none, &families).is_none());
}

#[test]
fn zwj_emoji_shapes_as_single_glyph() {
    let sequences = [
        "👨‍👩‍👧",
        "👨‍👩‍👧‍👦",
        "👩‍💻",
        "🏳️‍🌈",
        "👍🏻",
        "👨‍👦",
        "❤️",
        "🚴‍♂️",
    ];
    for seq in sequences {
        let chars = infos(seq);
        let line = [run(font("AppleColorEmoji", COLOR_GLYPHS), 0.0, &[0])];
        let runs = cut(seq, &chars, 0, &line, 20.0);
        let mut total = 0usize;
        for run in &runs {
            total += run.glyphs.len();
        }
        assert_eq!(total, 1, "ZWJ sequence {seq:?} must shape to a single glyph");
        assert_eq!(runs[0].glyphs[0].offset, 0);
        assert!(runs[0].native_font.color);
    }
}

#[test]
fn native_font_key_resolves_back_to_ctfont() {
    let text = "Hello";
    let chars = infos(text);
    let asked = font("Helvetica", 0).unwrap();
    let line = [run(font("Helvetica", 0), 0.0, &[0, 1, 2, 3, 4])];
    let runs = cut(text, &chars, 0, &line, 50.0);
    let summary = run_summary(&runs);
    assert!(!summary.is_empty());
    // The name and size by which the font is found again are the font's own.
    let first = runs[0].native_font.clone();
    assert_eq!(first.postscript_name, asked.postscript_name);
    assert_eq!(first.postscript_name, "Helvetica");
    assert_eq!(first.size, asked.pt_size);
    assert_eq!(first.size, 16.0);
}

#[test]
fn bold_weight_selects_the_bold_face() {
    let text = "Hello";
    let chars = infos(text);
    let mut families = MacFamilyNames::default();
    families.insert(FamilyId { raw: 70 }, "Helvetica");
    let mut bold = styles();
    bold[0].font_weight = 700.0;
    let plan = plan_fonts(&bold, &item(0), text, &chars, &families).unwrap();
    assert_eq!(plan.base.family, "Helvetica");
    assert_eq!(plan.base.traits, vec![FontTrait::Weight(700.0)]);
    assert_eq!(plan.size, 16.0);
    let line = [run(font("Helvetica-Bold", 2), 0.0, &[0, 1, 2, 3, 4])];
    let runs = shape_item_coretext(&bold, &item(0), text, &chars, 0, &line, 50.0);
    let summary = run_summary(&runs);
    assert!(!summary.is_empty());
    let ps = &summary[0].0;
    assert!(
        ps.to_lowercase().contains("bold") || !ps.eq_ignore_ascii_case("Helvetica"),
        "expected a bold face, got {ps}"
    );
    assert_eq!(runs[0].font_attrs.weight, 700.0);
}

#[test]
fn item_without_family_names_is_planned_with_helvetica() {
    let text = "Hello";
    let chars = infos(text);
    let families = MacFamilyNames::default();
    for stack in [None, Some(vec![]), Some(vec![FamilyId { raw: 70 }, FamilyId { raw: 71 }])] {
        let mut unnamed = styles();
        unnamed[0].font_family = stack;
        let plan = plan_fonts(&unnamed, &item(1), text, &chars, &families).unwrap();
        assert_eq!(plan.base.family, "Helvetica");
        assert_eq!(plan.base.traits, vec![FontTrait::Weight(400.0)]);
        assert!(plan.cascade.is_none());
        assert_eq!(plan.direction, base_direction(true));
    }
}

#[test]
fn run_carries_item_style_and_font() {
    let text = "ab";
    let chars = infos(text);
    let many = vec![
        ResolvedStyle {
            font_family: None,
            font_weight: 100.0,
            font_style: FontStyle::Normal,
            font_width: 1.0,
        },
        ResolvedStyle {
            font_family: None,
            font_weight: 700.0,
            font_style: FontStyle::Oblique(Some(14.0)),
            font_width: 0.75,
        },
    ];
    let piece =
        Item { style_index: 1, size: 20.0, level: 2, word_spacing: 0.25, letter_spacing: 0.5 };
    let line = [run(font("Menlo-Bold", 0), 3.0, &[0, 1])];
    let runs = shape_item_coretext(&many, &piece, text, &chars, 7, &line, 23.5);
    assert_eq!(runs.len(), 1);
    let run = &runs[0];
    assert_eq!(run.native_font.postscript_name, "Menlo-Bold");
    assert_eq!(run.native_font.family_name, "Menlo-Bold family");
    assert_eq!(run.native_font.size, 16.0);
    assert_eq!(run.font_size, 16.0);
    assert_eq!(run.font_attrs.weight, 700.0);
    assert_eq!(run.font_attrs.width, 0.75);
    assert_eq!(run.font_attrs.style, FontStyle::Oblique(Some(14.0)));
    assert_eq!(run.bidi_level, 2);
    assert_eq!(run.style_index, 1);
    assert_eq!(run.word_spacing, 0.25);
    assert_eq!(run.letter_spacing, 0.5);
    assert_eq!(run.metrics, metrics());
    assert_eq!(run.text_range, 7..9);
    assert_eq!(run.glyphs[0].id, 40);
    assert_eq!(run.glyphs[1].id, 41);
    assert_eq!((run.glyphs[1].x, run.glyphs[1].y, run.glyphs[1].end_x), (13.0, 0.5, 23.5));
}

#[test]
fn runs_without_font_or_glyphs_are_left_out() {
    let text = "abcd";
    let chars = infos(text);
    let line = [
        run(None, 0.0, &[0]),
        run(font("One", 0), 10.0, &[1]),
        run(font("Empty", 0), 20.0, &[]),
        run(None, 20.0, &[2]),
        run(font("Two", 0), 30.0, &[3]),
    ];
    let runs = cut(text, &chars, 0, &line, 40.0);
    let names: Vec<&str> = runs.iter().map(|r| r.native_font.postscript_name.as_str()).collect();
    assert_eq!(names, vec!["One", "Two"]);
    // The first run's advance reaches the next run that was kept.
    assert_eq!(runs[0].glyphs[0].end_x, 30.0);
    assert_eq!(runs[1].glyphs[0].end_x, 40.0);
}

#[test]
fn only_glyphs_with_number_position_and_index_count() {
    let text = "abcd";
    let chars = infos(text);
    let mut short_glyphs = run(font("A", 0), 0.0, &[0, 1, 2]);
    short_glyphs.glyphs.truncate(2);
    let mut short_positions = run(font("B", 0), 20.0, &[2, 3]);
    short_positions.positions.truncate(1);
    let mut short_indices = run(font("C", 0), 30.0, &[3, 0]);
    short_indices.string_indices.truncate(1);
    let mut none = run(font("D", 0), 30.0, &[3]);
    none.glyphs.clear();
    let line = [short_glyphs, short_positions, short_indices, none];
    let runs = cut(text, &chars, 0, &line, 40.0);
    let seen: Vec<(&str, usize)> = runs.iter().map(|r| (r.text, r.glyphs.len())).collect();
    assert_eq!(seen, vec![("ab", 2), ("c", 1), ("d", 1)]);
    // The third position of the first run has no glyph number, so it is no glyph.
    assert_eq!(runs[0].glyphs[1].end_x, 20.0);
}

#[test]
fn advances_reach_the_next_glyph_and_the_line_width() {
    let text = "abcde";
    let chars = infos(text);
    let line = [
        run(font("A", 0), 0.0, &[0, 1]),
        run(font("B", 0), 25.0, &[2]),
        run(font("C", 0), 31.0, &[3, 4]),
    ];
    let runs = cut(text, &chars, 0, &line, 48.0);
    let ends: Vec<f32> =
        runs.iter().flat_map(|r| r.glyphs.iter().map(|g| g.end_x)).collect();
    assert_eq!(ends, vec![10.0, 25.0, 31.0, 41.0, 48.0]);
}

#[test]
fn order_of_indices_does_not_change_the_run_text() {
    let text = "xéy😀z";
    let chars = infos(text);
    for indices in [[1, 2, 3], [3, 2, 1], [2, 1, 3]] {
        let runs = cut(text, &chars, 0, &[run(font("A", 0), 0.0, &indices)], 30.0);
        assert_eq!(runs[0].text, "éy😀");
        assert_eq!(runs[0].text_range, 101..108);
        assert_eq!(runs[0].infos, &['é', 'y', '😀']);
    }
}

#[test]
fn second_half_of_a_surrogate_pair_covers_its_character() {
    let text = "a😀b";
    let chars = infos(text);
    let runs = cut(text, &chars, 0, &[run(font("A", 0), 0.0, &[2])], 10.0);
    assert_eq!(runs[0].text, "😀");
    assert_eq!(runs[0].text_range, 101..105);
    assert_eq!(runs[0].glyphs[0].offset, 0);
}

#[test]
fn indices_outside_the_text_fall_back_to_its_ends() {
    let text = "aé";
    let chars = infos(text);
    // Past the end: the run reaches the end, and the glyph stands there.
    let runs = cut(text, &chars, 0, &[run(font("A", 0), 0.0, &[1, 9])], 20.0);
    assert_eq!(runs[0].text, "é");
    assert_eq!(runs[0].glyphs[1].offset, 2);
    // Only past the end: the run covers everything.
    let runs = cut(text, &chars, 0, &[run(font("A", 0), 0.0, &[9])], 20.0);
    assert_eq!(runs[0].text, text);
    assert_eq!(runs[0].glyphs[0].offset, 3);
    // At the end: an empty run there.
    let runs = cut(text, &chars, 0, &[run(font("A", 0), 0.0, &[2])], 20.0);
    assert_eq!(runs[0].text, "");
    assert_eq!(runs[0].text_range, 103..103);
    assert_eq!(runs[0].infos.len(), 0);
    // Negative: the run starts at the start, the glyph stands at the end.
    let runs = cut(text, &chars, 0, &[run(font("A", 0), 0.0, &[-1, 0])], 20.0);
    assert_eq!(runs[0].text, "a");
    assert_eq!(runs[0].glyphs[0].offset, 3);
    assert_eq!(runs[0].glyphs[1].offset, 0);
    let runs = cut(text, &chars, 0, &[run(font("A", 0), 0.0, &[-5])], 20.0);
    assert_eq!(runs[0].text, text);
}

#[test]
fn entries_end_where_the_item_has_no_more() {
    let text = "abcd";
    let chars = ['a', 'b', 'c'];
    let runs = cut(text, &chars, 0, &[run(font("A", 0), 0.0, &[1, 2, 3])], 30.0);
    assert_eq!(runs[0].text, "bcd");
    assert_eq!(runs[0].infos, &['b', 'c']);
    let runs = cut(text, &chars, 0, &[run(font("A", 0), 0.0, &[3])], 30.0);
    assert_eq!(runs[0].text, "d");
    assert_eq!(runs[0].infos.len(), 0);
}

#[test]
fn line_fits_tells_runs_that_cannot_be_placed() {
    let text = "abcd";
    let line = [run(font("A", 0), 0.0, &[3])];
    assert!(line_fits(text, &['a', 'b', 'c'], 0, &line));
    assert!(!line_fits(text, &['a', 'b'], 0, &line));
    // A run that is left out needs no place.
    assert!(line_fits(text, &['a', 'b'], 0, &[run(None, 0.0, &[3])]));
    assert!(line_fits(text, &['a', 'b', 'c', 'd'], usize::MAX - 4, &line));
    assert!(!line_fits(text, &['a', 'b', 'c', 'd'], usize::MAX - 3, &line));
}

#[test]
fn run_over_both_ends_covers_the_text() {
    let text = "é世😀";
    let chars = infos(text);
    let runs = cut(text, &chars, 0, &[run(font("A", 0), 0.0, &[0, 3])], 20.0);
    assert_eq!(runs[0].text, text);
    assert_eq!(runs[0].text_range, 100..109);
    assert_eq!(runs[0].infos.len(), 3);
}
