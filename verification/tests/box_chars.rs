use tolid::box_chars::{BoxCharMap, BOX_DOWN, BOX_LEFT, BOX_RIGHT, BOX_UP};

const GLYPHS: [char; 16] = [
    ' ', '\u{2574}', '\u{2577}', '\u{256e}', '\u{2576}', '\u{2500}', '\u{256d}', '\u{252c}',
    '\u{2575}', '\u{256f}', '\u{2502}', '\u{2524}', '\u{2570}', '\u{2534}', '\u{251c}',
    '\u{253c}',
];

#[test]
fn every_mask_has_its_glyph() {
    let map = BoxCharMap::new();
    for layout in 0u8..16 {
        assert_eq!(map.layout_to_char(layout), GLYPHS[layout as usize]);
    }
}

#[test]
fn every_glyph_leads_back_to_its_mask() {
    let map = BoxCharMap::new();
    for layout in 0u8..16 {
        assert_eq!(map.char_to_layout(map.layout_to_char(layout)), layout);
    }
}

#[test]
fn other_characters_have_the_empty_mask() {
    let map = BoxCharMap::new();
    assert_eq!(map.char_to_layout('a'), 0);
    assert_eq!(map.char_to_layout(' '), 0);
    // In the block of line glyphs, but none of the fifteen.
    assert_eq!(map.char_to_layout('\u{2501}'), 0);
    assert_eq!(map.char_to_layout('\u{257f}'), 0);
    // Just outside the block.
    assert_eq!(map.char_to_layout('\u{24ff}'), 0);
    assert_eq!(map.char_to_layout('\u{2580}'), 0);
    assert_eq!(map.char_to_layout('\u{10ffff}'), 0);
}

#[test]
fn the_directions_are_four_different_bits() {
    assert_eq!(BOX_UP | BOX_RIGHT | BOX_DOWN | BOX_LEFT, 15);
    assert_eq!(BOX_UP, 8);
    assert_eq!(BOX_RIGHT, 4);
    assert_eq!(BOX_DOWN, 2);
    assert_eq!(BOX_LEFT, 1);
}

#[test]
fn a_line_over_a_blank_cell_is_the_line() {
    let map = BoxCharMap::new();
    assert_eq!(map.overlap_char(' ', BOX_DOWN), '\u{2577}');
    assert_eq!(map.overlap_char('x', BOX_LEFT), '\u{2574}');
    assert_eq!(map.overlap_char(' ', BOX_UP | BOX_DOWN), '\u{2502}');
}

#[test]
fn touching_lines_join() {
    let map = BoxCharMap::new();
    // A horizontal line crossed by a vertical one.
    assert_eq!(map.overlap_char('\u{2500}', BOX_UP | BOX_DOWN), '\u{253c}');
    // A vertical line with a branch to the right.
    assert_eq!(map.overlap_char('\u{2502}', BOX_RIGHT), '\u{251c}');
    // Two corners side by side.
    assert_eq!(map.overlap_char('\u{256e}', BOX_DOWN | BOX_RIGHT), '\u{252c}');
}

#[test]
fn drawing_a_line_twice_is_drawing_it_once() {
    let map = BoxCharMap::new();
    for layout in 0u8..16 {
        for start in GLYPHS.iter().chain(['a', '\u{2501}'].iter()) {
            let once = map.overlap_char(*start, layout);
            assert_eq!(map.overlap_char(once, layout), once);
        }
    }
}

#[test]
fn the_order_of_two_lines_does_not_matter() {
    let map = BoxCharMap::new();
    for a in 0u8..16 {
        for b in 0u8..16 {
            for start in GLYPHS.iter() {
                let ab = map.overlap_char(map.overlap_char(*start, a), b);
                let ba = map.overlap_char(map.overlap_char(*start, b), a);
                assert_eq!(ab, ba);
                assert_eq!(ab, map.overlap_char(*start, a | b));
            }
        }
    }
}
