use tolid::screen_buffer::{
    empty_cell, Attributes, BufferCell, Color, ContentStyle, ScreenBuffer,
};

fn plain(c: char) -> BufferCell {
    BufferCell::plain(c)
}

#[test]
fn the_empty_cell_is_a_plain_space() {
    let cell = empty_cell();
    assert_eq!(*cell.content(), ' ');
    assert_eq!(
        *cell.style(),
        ContentStyle {
            foreground_color: None,
            background_color: None,
            underline_color: None,
            attributes: Attributes(0),
        }
    );
    assert_eq!(cell, BufferCell::plain(' '));
    assert_eq!(ContentStyle::new().apply(' '), cell);
}

#[test]
fn a_cell_keeps_its_style_and_content() {
    let style = ContentStyle {
        foreground_color: Some(Color::Red),
        background_color: Some(Color::Rgb { r: 1, g: 2, b: 3 }),
        underline_color: Some(Color::AnsiValue(7)),
        attributes: Attributes(6),
    };
    let cell = BufferCell::new(style, 'z');
    assert_eq!(*cell.content(), 'z');
    assert_eq!(*cell.style(), style);
    assert_ne!(cell, BufferCell::plain('z'));
}

#[test]
fn a_new_buffer_has_no_cells() {
    let buffer = ScreenBuffer::new();
    assert_eq!(buffer.get(0, 0), None);
    assert_eq!(buffer.get_by_index(0), None);
    assert_eq!(buffer.row(0), None);
}

#[test]
fn a_resized_buffer_is_blank() {
    let mut buffer = ScreenBuffer::new();
    buffer.resize(3, 2);
    for y in 0..2 {
        for x in 0..3 {
            assert_eq!(buffer.get(x, y), Some(&empty_cell()));
        }
    }
    assert_eq!(buffer.get(3, 0), None);
    assert_eq!(buffer.get(0, 2), None);
    assert_eq!(buffer.get_by_index(5), Some(&empty_cell()));
    assert_eq!(buffer.get_by_index(6), None);
}

#[test]
fn cells_are_stored_row_by_row() {
    let mut buffer = ScreenBuffer::new();
    buffer.resize(3, 2);
    buffer.set(1, 0, plain('a'));
    buffer.set(2, 1, plain('b'));
    assert_eq!(buffer.get_by_index(1), Some(&plain('a')));
    assert_eq!(buffer.get_by_index(5), Some(&plain('b')));
    assert_eq!(buffer.get(1, 0), Some(&plain('a')));
    assert_eq!(buffer.get(2, 1), Some(&plain('b')));
    assert_eq!(buffer.get(0, 0), Some(&empty_cell()));
}

#[test]
fn writes_outside_the_buffer_do_nothing() {
    let mut buffer = ScreenBuffer::new();
    buffer.resize(2, 2);
    buffer.set(2, 0, plain('x'));
    buffer.set(0, 2, plain('x'));
    buffer.set_by_index(4, plain('x'));
    for i in 0..4 {
        assert_eq!(buffer.get_by_index(i), Some(&empty_cell()));
    }
}

#[test]
fn set_by_index_stores_a_cell() {
    let mut buffer = ScreenBuffer::new();
    buffer.resize(2, 2);
    buffer.set_by_index(3, plain('q'));
    assert_eq!(buffer.get(1, 1), Some(&plain('q')));
}

#[test]
fn a_row_is_a_slice_of_the_buffer() {
    let mut buffer = ScreenBuffer::new();
    buffer.resize(3, 2);
    buffer.set(0, 1, plain('a'));
    buffer.set(2, 1, plain('c'));
    let row = buffer.row(1).unwrap();
    assert_eq!(row.to_vec(), vec![plain('a'), empty_cell(), plain('c')]);
    assert_eq!(buffer.row(0).unwrap().to_vec(), vec![empty_cell(); 3]);
    assert_eq!(buffer.row(2), None);
}

#[test]
fn clear_makes_every_cell_blank() {
    let mut buffer = ScreenBuffer::new();
    buffer.resize(2, 2);
    buffer.set(0, 0, plain('a'));
    buffer.set(1, 1, plain('b'));
    buffer.clear();
    for i in 0..4 {
        assert_eq!(buffer.get_by_index(i), Some(&empty_cell()));
    }
}

#[test]
fn resize_keeps_the_leading_cells_and_pads_with_blanks() {
    let mut buffer = ScreenBuffer::new();
    buffer.resize(2, 2);
    buffer.set_by_index(0, plain('a'));
    buffer.set_by_index(3, plain('d'));
    buffer.resize(3, 2);
    assert_eq!(buffer.get_by_index(0), Some(&plain('a')));
    assert_eq!(buffer.get_by_index(3), Some(&plain('d')));
    assert_eq!(buffer.get_by_index(4), Some(&empty_cell()));
    assert_eq!(buffer.get_by_index(5), Some(&empty_cell()));
    buffer.resize(1, 2);
    assert_eq!(buffer.get_by_index(0), Some(&plain('a')));
    assert_eq!(buffer.get_by_index(1), Some(&empty_cell()));
    assert_eq!(buffer.get_by_index(2), None);
}

#[test]
fn a_buffer_without_width_has_no_cells() {
    let mut buffer = ScreenBuffer::new();
    buffer.resize(0, 5);
    assert_eq!(buffer.get(0, 0), None);
    assert_eq!(buffer.row(0).unwrap().len(), 0);
}
