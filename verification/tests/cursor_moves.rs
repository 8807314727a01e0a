use yim::Cursor;
use yim::CursorDirections;
use yim::EditorConfigs;

fn cursor_at(x: usize, y: usize) -> Cursor {
    let mut c = Cursor::new();
    c.set_x(x);
    c.set_y(y);
    c.rows(24);
    c.cols(80);
    c
}

#[test]
fn left_at_column_zero_wraps_to_previous_row_end() {
    // content "foo\nbar\n": newlines at 3 and 7; row 0 is "foo"
    let nl: Vec<usize> = vec![3, 7];
    let mut c = cursor_at(0, 1);
    let r = c.move_cursor(&nl, CursorDirections::Left, 1);
    assert!(r.is_ok());
    assert_eq!(c.absy(), 0);
    assert_eq!(c.absx(), 2); // last valid column of "foo"
}

#[test]
fn left_within_row_moves_one_cell() {
    let nl: Vec<usize> = vec![3];
    let mut c = cursor_at(2, 0);
    c.move_cursor(&nl, CursorDirections::Left, 1).unwrap();
    assert_eq!((c.absx(), c.absy()), (1, 0));
}

#[test]
fn left_at_document_start_stays() {
    let nl: Vec<usize> = vec![3];
    let mut c = cursor_at(0, 0);
    c.move_cursor(&nl, CursorDirections::Left, 1).unwrap();
    assert_eq!((c.absx(), c.absy()), (0, 0));
}

#[test]
fn right_stops_at_last_valid_column() {
    let nl: Vec<usize> = vec![3]; // row 0 is "foo", columns 0..=2
    let mut c = cursor_at(2, 0);
    c.move_cursor(&nl, CursorDirections::Right, 1).unwrap();
    assert_eq!((c.absx(), c.absy()), (2, 0));
}

#[test]
fn right_with_larger_offset_wraps_to_a_following_row() {
    let nl: Vec<usize> = vec![3, 7, 11];
    let mut c = cursor_at(2, 0);
    c.move_cursor(&nl, CursorDirections::Right, 2).unwrap();
    // the offset runs past the row's end and a row that far down exists,
    // so the cursor wraps to that row's first column
    assert_eq!((c.absx(), c.absy()), (0, 2));
}

#[test]
fn down_clamps_to_last_row() {
    let nl: Vec<usize> = vec![3, 7];
    let mut c = cursor_at(0, 1);
    c.move_cursor(&nl, CursorDirections::Down, 1).unwrap();
    assert_eq!(c.absy(), 1);
}

#[test]
fn down_on_empty_document_stays_at_zero() {
    let nl: Vec<usize> = Vec::new();
    let mut c = cursor_at(0, 0);
    c.move_cursor(&nl, CursorDirections::Down, 1).unwrap();
    assert_eq!((c.absx(), c.absy()), (0, 0));
}

#[test]
fn up_clamps_to_first_row() {
    let nl: Vec<usize> = vec![3, 7];
    let mut c = cursor_at(1, 1);
    c.move_cursor(&nl, CursorDirections::Up, 5).unwrap();
    assert_eq!(c.absy(), 0);
}

#[test]
fn scroll_down_twenty_rows_clamps() {
    let nl: Vec<usize> = vec![1, 3, 5, 7, 9];
    let mut c = cursor_at(0, 0);
    c.move_cursor(&nl, CursorDirections::Down, 20).unwrap();
    assert_eq!(c.absy(), 4);
}

#[test]
fn line_begin_and_line_end() {
    let nl: Vec<usize> = vec![5]; // row 0 holds "abcde", columns 0..=4
    let mut c = cursor_at(3, 0);
    c.move_cursor(&nl, CursorDirections::LineBegin, 1).unwrap();
    assert_eq!(c.absx(), 0);
    c.move_cursor(&nl, CursorDirections::LineEnd, 1).unwrap();
    // the uniform clamp keeps the cursor on the last valid column
    assert_eq!(c.absx(), 4);
}

#[test]
fn column_invariant_after_moves() {
    // after any move the column stays within max(0, rowLength - 1)
    let nl: Vec<usize> = vec![4, 6]; // row 0 len 4, row 1 len 1
    let mut c = cursor_at(3, 0);
    c.move_cursor(&nl, CursorDirections::Down, 1).unwrap();
    assert_eq!(c.absy(), 1);
    assert!(c.absx() <= 0); // row 1 has length 1, last valid column is 0
}

#[test]
fn clamp_on_empty_row_is_zero() {
    let nl: Vec<usize> = vec![0, 4]; // row 0 is empty
    let mut c = cursor_at(3, 0);
    c.move_cursor(&nl, CursorDirections::LineBegin, 1).unwrap();
    assert_eq!(c.absx(), 0);
}

#[test]
fn row_bounds_of_each_row() {
    let c = Cursor::new();
    let nl: Vec<usize> = vec![3, 7];
    assert_eq!(c.calculate_row_of_insert_indices(0, &nl), (0, 3));
    assert_eq!(c.calculate_row_of_insert_indices(1, &nl), (4, 7));
    assert_eq!(c.calculate_row_of_insert_indices(2, &nl), (0, 0));
}

#[test]
fn file_index_of_display_position() {
    let c = Cursor::new();
    let nl: Vec<usize> = vec![2, 5];
    assert_eq!(c.calculate_file_index(&nl, 1, 0), 1);
    assert_eq!(c.calculate_file_index(&nl, 1, 1), 4);
    // the unterminated row after the last newline starts right behind it
    assert_eq!(c.calculate_file_index(&nl, 0, 2), 6);
}

#[test]
fn scroll_offset_follows_cursor() {
    let mut c = Cursor::new();
    c.rows(10);
    c.set_y(25);
    c.calculate_row_offset();
    assert_eq!(c.row_offset, 16);
    c.set_y(3);
    c.calculate_row_offset();
    assert_eq!(c.row_offset, 3);
    c.set_y(7);
    c.calculate_row_offset();
    assert_eq!(c.row_offset, 3);
}

#[test]
fn cursor_limits_clamps_to_viewport() {
    let mut c = Cursor::new();
    c.rows(10);
    c.cols(40);
    assert_eq!(c.cursor_limits(50, false), 40);
    assert_eq!(c.cursor_limits(30, false), 30);
    assert_eq!(c.cursor_limits(50, true), 10);
    assert_eq!(c.cursor_limits(5, true), 5);
}

#[test]
fn clear_keeps_scroll_offset() {
    let mut c = cursor_at(5, 6);
    c.row_offset = 4;
    c.clear();
    assert_eq!((c.absx(), c.absy()), (0, 0));
    assert_eq!(c.row_offset, 4);
    assert_eq!(c.editor_configs, EditorConfigs::default());
}
