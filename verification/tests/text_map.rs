//! The map from UTF-16 code units to UTF-8 bytes.

use coretext_shape::text::utf16_to_utf8_map;

#[test]
fn empty_text_maps_its_end_only() {
    assert_eq!(utf16_to_utf8_map(""), vec![0]);
}

#[test]
fn ascii_maps_to_itself() {
    assert_eq!(utf16_to_utf8_map("Hello"), vec![0, 1, 2, 3, 4, 5]);
}

#[test]
fn wide_characters_and_surrogate_pairs() {
    assert_eq!(utf16_to_utf8_map("aé世😀b"), vec![0, 1, 3, 6, 6, 10, 11]);
}

#[test]
fn widths_change_where_the_encodings_do() {
    assert_eq!(utf16_to_utf8_map("\u{7f}\u{80}"), vec![0, 1, 3]);
    assert_eq!(utf16_to_utf8_map("\u{7ff}\u{800}"), vec![0, 2, 5]);
    assert_eq!(utf16_to_utf8_map("\u{d7ff}\u{e000}"), vec![0, 3, 6]);
    assert_eq!(utf16_to_utf8_map("\u{ffff}\u{10000}"), vec![0, 3, 3, 7]);
    assert_eq!(utf16_to_utf8_map("\u{10ffff}"), vec![0, 0, 4]);
}

#[test]
fn every_unit_maps_to_the_start_of_its_character() {
    let text = "Hello 世界 😀 مرحبا 👨‍👩‍👧‍👦";
    let map = utf16_to_utf8_map(text);
    assert_eq!(map.len(), text.encode_utf16().count() + 1);
    let mut unit = 0;
    for (byte, c) in text.char_indices() {
        for _ in 0..c.len_utf16() {
            assert_eq!(map[unit], byte);
            unit += 1;
        }
    }
    assert_eq!(map[unit], text.len());
}

#[test]
fn map_never_goes_back_and_keeps_to_boundaries() {
    let text = "é世😀\u{200d}👍🏻z";
    let map = utf16_to_utf8_map(text);
    for i in 0..map.len() {
        assert!(text.is_char_boundary(map[i]));
        assert!(i == 0 || map[i - 1] <= map[i]);
    }
}
