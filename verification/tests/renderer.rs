use tolid::renderer::{Command, RenderContext, Renderer};
use tolid::screen_buffer::{empty_cell, Attributes, BufferCell, Color, ContentStyle};

fn sized(width: usize, height: usize) -> Renderer {
    let mut renderer = Renderer::new();
    renderer.resize(width, height);
    renderer
}

fn glyph(renderer: &Renderer, x: usize, y: usize) -> char {
    *renderer.get(x, y).unwrap().content()
}

fn colored(c: char, color: Color) -> BufferCell {
    BufferCell::new(
        ContentStyle {
            foreground_color: Some(color),
            background_color: None,
            underline_color: None,
            attributes: Attributes(0),
        },
        c,
    )
}

#[test]
fn a_new_renderer_has_no_size() {
    let renderer = Renderer::new();
    assert_eq!(renderer.size(), (0, 0));
    assert_eq!(renderer.get(0, 0), None);
    assert_eq!(
        *renderer.current_render_context(),
        RenderContext { x: 0, y: 0, width: 0, height: 0 }
    );
}

#[test]
fn resize_sets_the_size_and_the_whole_grid_region() {
    let renderer = sized(4, 3);
    assert_eq!(renderer.size(), (4, 3));
    assert_eq!(
        *renderer.current_render_context(),
        RenderContext { x: 0, y: 0, width: 4, height: 3 }
    );
    assert_eq!(renderer.get(3, 2), Some(&empty_cell()));
    assert_eq!(renderer.get(4, 0), None);
    assert_eq!(renderer.get(0, 3), None);
}

#[test]
fn both_frames_are_blank_after_any_resize() {
    let mut renderer = Renderer::new();
    for (width, height) in [(4, 3), (2, 2), (0, 0), (7, 1), (1, 9)] {
        renderer.draw_text(0, 0, "leftover");
        renderer.resize(width, height);
        assert_eq!(renderer.size(), (width, height));
        for y in 0..height {
            for x in 0..width {
                assert_eq!(renderer.get(x, y), Some(&empty_cell()));
            }
        }
        // The shown frame has the same size and is blank too: nothing differs.
        assert_eq!(renderer.render(), vec![]);
    }
}

#[test]
fn a_pushed_region_moves_and_clips() {
    let mut renderer = sized(5, 4);
    renderer.push_render_context(1, 2, 2, 1);
    assert_eq!(
        *renderer.current_render_context(),
        RenderContext { x: 1, y: 2, width: 2, height: 1 }
    );
    renderer.set(0, 0, BufferCell::plain('a'));
    renderer.set(1, 0, BufferCell::plain('b'));
    renderer.set(2, 0, BufferCell::plain('c'));
    renderer.set(0, 1, BufferCell::plain('d'));
    assert_eq!(renderer.get(0, 0), Some(&BufferCell::plain('a')));
    assert_eq!(renderer.get(2, 0), None);
    assert_eq!(renderer.get(0, 1), None);
    renderer.pop_render_context();
    assert_eq!(glyph(&renderer, 1, 2), 'a');
    assert_eq!(glyph(&renderer, 2, 2), 'b');
    assert_eq!(glyph(&renderer, 3, 2), ' ');
    assert_eq!(glyph(&renderer, 1, 3), ' ');
}

#[test]
fn a_region_past_the_grid_is_clipped_by_the_grid() {
    let mut renderer = sized(3, 2);
    renderer.push_render_context(2, 1, 5, 5);
    renderer.set(0, 0, BufferCell::plain('a'));
    renderer.set(1, 0, BufferCell::plain('b'));
    renderer.set(0, 1, BufferCell::plain('c'));
    assert_eq!(renderer.get(1, 0), None);
    assert_eq!(renderer.get(0, 1), None);
    renderer.pop_render_context();
    assert_eq!(glyph(&renderer, 2, 1), 'a');
}

#[test]
fn a_relative_region_is_placed_in_the_active_one() {
    let mut renderer = sized(10, 10);
    renderer.push_relative_render_context(2, 3, 6, 6);
    assert_eq!(
        *renderer.current_render_context(),
        RenderContext { x: 2, y: 3, width: 6, height: 6 }
    );
    renderer.push_relative_render_context(1, 1, 2, 2);
    assert_eq!(
        *renderer.current_render_context(),
        RenderContext { x: 3, y: 4, width: 2, height: 2 }
    );
    renderer.set(1, 1, BufferCell::plain('x'));
    renderer.pop_render_context();
    assert_eq!(
        *renderer.current_render_context(),
        RenderContext { x: 2, y: 3, width: 6, height: 6 }
    );
    assert_eq!(glyph(&renderer, 2, 2), 'x');
    renderer.pop_render_context();
    assert_eq!(glyph(&renderer, 4, 5), 'x');
    assert_eq!(
        *renderer.current_render_context(),
        RenderContext { x: 0, y: 0, width: 10, height: 10 }
    );
}

#[test]
fn a_relative_offset_stops_at_the_largest_integer() {
    let mut renderer = sized(4, 4);
    renderer.push_relative_render_context(3, 3, 2, 2);
    renderer.push_relative_render_context(usize::MAX, usize::MAX - 1, 2, 2);
    assert_eq!(
        *renderer.current_render_context(),
        RenderContext { x: usize::MAX, y: usize::MAX, width: 2, height: 2 }
    );
    renderer.set(0, 0, BufferCell::plain('x'));
    assert_eq!(renderer.get(0, 0), None);
}

#[test]
fn popping_without_a_region_does_nothing() {
    let mut renderer = sized(2, 2);
    renderer.pop_render_context();
    assert_eq!(
        *renderer.current_render_context(),
        RenderContext { x: 0, y: 0, width: 2, height: 2 }
    );
}

#[test]
fn a_box_has_corners_and_edges() {
    let mut renderer = sized(4, 3);
    renderer.draw_box(0, 0, 4, 3);
    assert_eq!(glyph(&renderer, 0, 0), '\u{256d}');
    assert_eq!(glyph(&renderer, 3, 0), '\u{256e}');
    assert_eq!(glyph(&renderer, 0, 2), '\u{2570}');
    assert_eq!(glyph(&renderer, 3, 2), '\u{256f}');
    assert_eq!(glyph(&renderer, 1, 0), '\u{2500}');
    assert_eq!(glyph(&renderer, 2, 2), '\u{2500}');
    assert_eq!(glyph(&renderer, 0, 1), '\u{2502}');
    assert_eq!(glyph(&renderer, 3, 1), '\u{2502}');
    assert_eq!(glyph(&renderer, 1, 1), ' ');
    assert_eq!(glyph(&renderer, 2, 1), ' ');
}

#[test]
fn drawing_a_box_twice_is_drawing_it_once() {
    let mut once = sized(5, 4);
    once.draw_box(1, 0, 4, 3);
    let mut twice = sized(5, 4);
    twice.draw_box(1, 0, 4, 3);
    twice.draw_box(1, 0, 4, 3);
    for y in 0..4 {
        for x in 0..5 {
            assert_eq!(once.get(x, y), twice.get(x, y));
        }
    }
}

#[test]
fn boxes_that_share_an_edge_join() {
    let mut renderer = sized(5, 3);
    renderer.draw_box(0, 0, 3, 3);
    renderer.draw_box(2, 0, 3, 3);
    assert_eq!(glyph(&renderer, 2, 0), '\u{252c}');
    assert_eq!(glyph(&renderer, 2, 1), '\u{2502}');
    assert_eq!(glyph(&renderer, 2, 2), '\u{2534}');
    assert_eq!(glyph(&renderer, 0, 0), '\u{256d}');
    assert_eq!(glyph(&renderer, 4, 2), '\u{256f}');
}

#[test]
fn crossing_lines_make_a_cross() {
    let mut renderer = sized(3, 3);
    renderer.draw_v_capped_line(1, 0, 3);
    renderer.draw_h_capped_line(0, 1, 3);
    assert_eq!(glyph(&renderer, 1, 0), '\u{2577}');
    assert_eq!(glyph(&renderer, 1, 2), '\u{2575}');
    assert_eq!(glyph(&renderer, 0, 1), '\u{2576}');
    assert_eq!(glyph(&renderer, 2, 1), '\u{2574}');
    assert_eq!(glyph(&renderer, 1, 1), '\u{253c}');
}

#[test]
fn the_order_of_crossing_lines_does_not_matter() {
    let mut first = sized(3, 3);
    first.draw_v_capped_line(1, 0, 3);
    first.draw_h_capped_line(0, 1, 3);
    let mut second = sized(3, 3);
    second.draw_h_capped_line(0, 1, 3);
    second.draw_v_capped_line(1, 0, 3);
    for y in 0..3 {
        for x in 0..3 {
            assert_eq!(first.get(x, y), second.get(x, y));
        }
    }
}

#[test]
fn a_line_of_two_cells_is_two_ends() {
    let mut renderer = sized(3, 3);
    renderer.draw_h_capped_line(0, 0, 2);
    assert_eq!(glyph(&renderer, 0, 0), '\u{2576}');
    assert_eq!(glyph(&renderer, 1, 0), '\u{2574}');
    assert_eq!(glyph(&renderer, 2, 0), ' ');
}

#[test]
fn short_lines_and_flat_boxes_draw_nothing() {
    let mut renderer = sized(3, 3);
    renderer.draw_v_capped_line(1, 1, 1);
    renderer.draw_h_capped_line(1, 1, 0);
    renderer.draw_box(0, 0, 0, 3);
    renderer.draw_box(0, 0, 3, 0);
    renderer.draw_box(0, 0, 1, 1);
    for y in 0..3 {
        for x in 0..3 {
            assert_eq!(renderer.get(x, y), Some(&empty_cell()));
        }
    }
}

#[test]
fn a_box_one_cell_wide_is_a_vertical_line() {
    let mut renderer = sized(3, 3);
    renderer.draw_box(1, 0, 1, 3);
    assert_eq!(glyph(&renderer, 1, 0), '\u{2577}');
    assert_eq!(glyph(&renderer, 1, 1), '\u{2502}');
    assert_eq!(glyph(&renderer, 1, 2), '\u{2575}');
}

#[test]
fn a_line_keeps_the_style_of_the_cell() {
    let mut renderer = sized(2, 2);
    renderer.set(0, 0, colored('x', Color::Green));
    renderer.draw_box_char(0, 0, 5);
    assert_eq!(renderer.get(0, 0), Some(&colored('\u{2500}', Color::Green)));
}

#[test]
fn lines_are_clipped_by_the_region() {
    let mut renderer = sized(4, 4);
    renderer.push_render_context(1, 1, 2, 2);
    renderer.draw_box(0, 0, 3, 3);
    renderer.pop_render_context();
    assert_eq!(glyph(&renderer, 1, 1), '\u{256d}');
    assert_eq!(glyph(&renderer, 2, 1), '\u{2500}');
    assert_eq!(glyph(&renderer, 1, 2), '\u{2502}');
    assert_eq!(glyph(&renderer, 3, 1), ' ');
    assert_eq!(glyph(&renderer, 3, 3), ' ');
    assert_eq!(glyph(&renderer, 2, 2), ' ');
    assert_eq!(glyph(&renderer, 0, 0), ' ');
}

#[test]
fn text_is_written_cell_by_cell() {
    let mut renderer = sized(6, 2);
    renderer.draw_text(1, 1, "h\u{e9}y");
    assert_eq!(glyph(&renderer, 0, 1), ' ');
    assert_eq!(glyph(&renderer, 1, 1), 'h');
    assert_eq!(glyph(&renderer, 2, 1), '\u{e9}');
    assert_eq!(glyph(&renderer, 3, 1), 'y');
    assert_eq!(glyph(&renderer, 4, 1), ' ');
    assert_eq!(renderer.get(1, 1), Some(&BufferCell::plain('h')));
}

#[test]
fn text_past_the_region_is_cut() {
    let mut renderer = sized(6, 2);
    renderer.push_render_context(2, 0, 3, 1);
    renderer.draw_text(1, 0, "abcdef");
    renderer.draw_text(0, 1, "zzz");
    renderer.pop_render_context();
    assert_eq!(glyph(&renderer, 2, 0), ' ');
    assert_eq!(glyph(&renderer, 3, 0), 'a');
    assert_eq!(glyph(&renderer, 4, 0), 'b');
    assert_eq!(glyph(&renderer, 5, 0), ' ');
    assert_eq!(glyph(&renderer, 2, 1), ' ');
}

#[test]
fn the_first_flush_writes_what_was_drawn() {
    let mut renderer = sized(5, 2);
    renderer.draw_text(1, 0, "ab");
    assert_eq!(
        renderer.render(),
        vec![Command::MoveTo(1, 0), Command::Print("ab".to_string())]
    );
}

#[test]
fn the_second_flush_of_the_same_frame_writes_nothing() {
    let mut renderer = sized(5, 2);
    renderer.draw_text(1, 0, "ab");
    renderer.draw_box_char(4, 1, 5);
    assert_ne!(renderer.render(), vec![]);
    renderer.draw_text(1, 0, "ab");
    renderer.draw_box_char(4, 1, 5);
    assert_eq!(renderer.render(), vec![]);
}

#[test]
fn a_flush_leaves_a_blank_frame_to_draw() {
    let mut renderer = sized(3, 1);
    renderer.draw_text(0, 0, "abc");
    renderer.render();
    for x in 0..3 {
        assert_eq!(renderer.get(x, 0), Some(&empty_cell()));
    }
    // Nothing is drawn, so what was shown is wiped.
    assert_eq!(
        renderer.render(),
        vec![Command::MoveTo(0, 0), Command::Print("   ".to_string())]
    );
}

#[test]
fn only_changed_cells_are_written() {
    let mut renderer = sized(6, 1);
    renderer.draw_text(0, 0, "abcdef");
    renderer.render();
    renderer.draw_text(0, 0, "abXdeY");
    assert_eq!(
        renderer.render(),
        vec![
            Command::MoveTo(2, 0),
            Command::Print("X".to_string()),
            Command::MoveTo(5, 0),
            Command::Print("Y".to_string()),
        ]
    );
}

#[test]
fn a_run_ends_with_its_row() {
    let mut renderer = sized(2, 2);
    renderer.draw_text(0, 0, "ab");
    renderer.draw_text(0, 1, "cd");
    assert_eq!(
        renderer.render(),
        vec![
            Command::MoveTo(0, 0),
            Command::Print("ab".to_string()),
            Command::MoveTo(0, 1),
            Command::Print("cd".to_string()),
        ]
    );
}

#[test]
fn a_run_ends_where_the_style_changes() {
    let mut renderer = sized(4, 1);
    renderer.set(0, 0, colored('x', Color::Red));
    renderer.set(1, 0, colored('y', Color::Red));
    renderer.set(2, 0, colored('z', Color::Blue));
    assert_eq!(
        renderer.render(),
        vec![
            Command::MoveTo(0, 0),
            Command::SetForegroundColor(Color::Red),
            Command::Print("xy".to_string()),
            Command::MoveTo(2, 0),
            Command::SetForegroundColor(Color::Blue),
            Command::Print("z".to_string()),
        ]
    );
}

#[test]
fn the_pen_is_changed_only_where_it_differs_from_the_last_write() {
    let mut renderer = sized(4, 2);
    renderer.set(0, 0, colored('x', Color::Red));
    renderer.set(3, 0, colored('y', Color::Red));
    renderer.set(1, 1, colored('z', Color::Red));
    assert_eq!(
        renderer.render(),
        vec![
            Command::MoveTo(0, 0),
            Command::SetForegroundColor(Color::Red),
            Command::Print("x".to_string()),
            Command::MoveTo(3, 0),
            Command::Print("y".to_string()),
            Command::MoveTo(1, 1),
            Command::Print("z".to_string()),
        ]
    );
    // The pen is still red when the next frame is flushed.
    renderer.set(0, 0, colored('x', Color::Red));
    renderer.set(3, 0, colored('y', Color::Red));
    renderer.set(1, 1, colored('w', Color::Red));
    assert_eq!(
        renderer.render(),
        vec![Command::MoveTo(1, 1), Command::Print("w".to_string())]
    );
    // Wiping the frame needs the plain pen again.
    assert_eq!(
        renderer.render(),
        vec![
            Command::MoveTo(0, 0),
            Command::SetForegroundColor(Color::Reset),
            Command::Print(" ".to_string()),
            Command::MoveTo(3, 0),
            Command::Print(" ".to_string()),
            Command::MoveTo(1, 1),
            Command::Print(" ".to_string()),
        ]
    );
}

#[test]
fn every_part_of_the_pen_is_set_in_order() {
    let mut renderer = sized(1, 1);
    let style = ContentStyle {
        foreground_color: Some(Color::Yellow),
        background_color: Some(Color::Rgb { r: 1, g: 2, b: 3 }),
        underline_color: Some(Color::AnsiValue(9)),
        attributes: Attributes(4),
    };
    renderer.set(0, 0, BufferCell::new(style, 'k'));
    assert_eq!(
        renderer.render(),
        vec![
            Command::MoveTo(0, 0),
            Command::SetForegroundColor(Color::Yellow),
            Command::SetBackgroundColor(Color::Rgb { r: 1, g: 2, b: 3 }),
            Command::SetUnderlineColor(Color::AnsiValue(9)),
            Command::SetAttributes(Attributes(4)),
            Command::Print("k".to_string()),
        ]
    );
}

#[test]
fn a_cell_that_changes_only_its_style_is_written() {
    let mut renderer = sized(2, 1);
    renderer.draw_text(0, 0, "ab");
    renderer.render();
    renderer.set(0, 0, BufferCell::plain('a'));
    renderer.set(1, 0, colored('b', Color::Cyan));
    assert_eq!(
        renderer.render(),
        vec![
            Command::MoveTo(1, 0),
            Command::SetForegroundColor(Color::Cyan),
            Command::Print("b".to_string()),
        ]
    );
}

#[test]
fn a_flush_keeps_the_regions() {
    let mut renderer = sized(4, 4);
    renderer.push_render_context(1, 1, 2, 2);
    renderer.render();
    assert_eq!(
        *renderer.current_render_context(),
        RenderContext { x: 1, y: 1, width: 2, height: 2 }
    );
}

#[test]
fn a_pushed_region_is_placed_in_the_active_one() {
    let mut renderer = sized(10, 10);
    renderer.push_render_context(2, 3, 6, 6);
    renderer.push_render_context(1, 1, 2, 2);
    assert_eq!(
        *renderer.current_render_context(),
        RenderContext { x: 3, y: 4, width: 2, height: 2 }
    );
    renderer.push_render_context(1, 0, 9, 9);
    assert_eq!(
        *renderer.current_render_context(),
        RenderContext { x: 4, y: 4, width: 9, height: 9 }
    );
    renderer.set(0, 1, BufferCell::plain('x'));
    renderer.pop_render_context();
    renderer.pop_render_context();
    renderer.pop_render_context();
    assert_eq!(glyph(&renderer, 4, 5), 'x');
}

#[test]
fn both_pushes_do_the_same() {
    let mut first = sized(10, 10);
    first.push_render_context(2, 3, 6, 6);
    first.push_render_context(1, 2, 3, 4);
    let mut second = sized(10, 10);
    second.push_relative_render_context(2, 3, 6, 6);
    second.push_relative_render_context(1, 2, 3, 4);
    assert_eq!(first.current_render_context(), second.current_render_context());
}

#[test]
fn a_region_pushed_in_a_region_without_width_still_has_its_own_size() {
    let mut renderer = sized(5, 3);
    renderer.push_render_context(0, 0, 0, 3);
    renderer.push_render_context(1, 1, 2, 1);
    renderer.draw_text(0, 0, "Hi");
    renderer.pop_render_context();
    renderer.pop_render_context();
    assert_eq!(glyph(&renderer, 1, 1), 'H');
    assert_eq!(glyph(&renderer, 2, 1), 'i');
}

#[test]
fn lines_longer_than_the_integers_reach_are_drawn_as_far_as_the_region() {
    let mut renderer = sized(4, 3);
    renderer.draw_h_capped_line(1, 0, usize::MAX);
    renderer.draw_v_capped_line(0, 1, usize::MAX);
    assert_eq!(glyph(&renderer, 0, 0), ' ');
    assert_eq!(glyph(&renderer, 1, 0), '\u{2576}');
    assert_eq!(glyph(&renderer, 2, 0), '\u{2500}');
    assert_eq!(glyph(&renderer, 3, 0), '\u{2500}');
    assert_eq!(glyph(&renderer, 0, 1), '\u{2577}');
    assert_eq!(glyph(&renderer, 0, 2), '\u{2502}');
    assert_eq!(glyph(&renderer, 1, 1), ' ');
}

#[test]
fn a_line_that_ends_in_the_region_has_its_end_cap() {
    let mut renderer = sized(6, 1);
    renderer.draw_h_capped_line(1, 0, 4);
    let row: String = (0..6).map(|x| glyph(&renderer, x, 0)).collect();
    assert_eq!(row, " \u{2576}\u{2500}\u{2500}\u{2574} ");
}

#[test]
fn a_line_that_starts_at_the_last_integer_shows_nothing() {
    let mut renderer = sized(3, 3);
    renderer.draw_h_capped_line(usize::MAX, 0, 5);
    renderer.draw_v_capped_line(0, usize::MAX, 5);
    for y in 0..3 {
        for x in 0..3 {
            assert_eq!(renderer.get(x, y), Some(&empty_cell()));
        }
    }
}

#[test]
fn a_box_larger_than_the_integers_reach_shows_its_near_sides() {
    let mut renderer = sized(3, 3);
    renderer.draw_box(1, 1, usize::MAX, usize::MAX);
    assert_eq!(glyph(&renderer, 1, 1), '\u{256d}');
    assert_eq!(glyph(&renderer, 2, 1), '\u{2500}');
    assert_eq!(glyph(&renderer, 1, 2), '\u{2502}');
    assert_eq!(glyph(&renderer, 2, 2), ' ');
    assert_eq!(glyph(&renderer, 0, 0), ' ');
}

#[test]
fn drawing_a_line_twice_shows_what_drawing_it_once_shows() {
    let mut once = sized(5, 4);
    once.draw_box(0, 0, 5, 4);
    once.draw_h_capped_line(0, 2, 5);
    once.draw_v_capped_line(2, 0, 4);
    let mut twice = sized(5, 4);
    twice.draw_box(0, 0, 5, 4);
    twice.draw_h_capped_line(0, 2, 5);
    twice.draw_h_capped_line(0, 2, 5);
    twice.draw_v_capped_line(2, 0, 4);
    twice.draw_v_capped_line(2, 0, 4);
    for y in 0..4 {
        for x in 0..5 {
            assert_eq!(once.get(x, y), twice.get(x, y));
        }
    }
    assert_eq!(glyph(&twice, 2, 2), '\u{253c}');
    assert_eq!(glyph(&twice, 0, 2), '\u{251c}');
    assert_eq!(glyph(&twice, 2, 0), '\u{252c}');
}
