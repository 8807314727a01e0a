use yim::AppendBuffer;
use yim::CursorDirections;
use yim::Editor;
use yim::EditorModes;
use yim::render::Style;
use yim::render::clear_status_sequence;
use yim::render::cursor_position_sequence;
use yim::render::draw;
use yim::render::draw_message_bar;
use yim::render::draw_status_bar;
use yim::render::format_timestamp;
use yim::render::naive_move_sequence;
use yim::render::render;
use yim::render::style_bytes;
use yim::text::usize_to_bytes;
use yim::text::usize_to_string;

#[test]
fn decimal_string_of_number() {
    assert_eq!(usize_to_string(0), "0");
    assert_eq!(usize_to_string(9), "9");
    assert_eq!(usize_to_string(905), "905");
    assert_eq!(usize_to_string(1000), "1000");
}

#[test]
fn decimal_bytes_of_number() {
    assert_eq!(usize_to_bytes(0), b"0".to_vec());
    assert_eq!(usize_to_bytes(42), b"42".to_vec());
    assert_eq!(usize_to_bytes(100), b"100".to_vec());
}

#[test]
fn timestamp_text_for_epoch_start() {
    // the chrono-backed formatter: %T %d/%m/%Y of the Unix epoch in UTC
    assert_eq!(format_timestamp(0), "00:00:00 01/01/1970");
    assert_eq!(format_timestamp(86400 + 3661), "01:01:01 02/01/1970");
}

#[test]
fn style_escape_bytes() {
    assert_eq!(style_bytes(Style::HideCursor), b"\x1b[?25l".to_vec());
    assert_eq!(style_bytes(Style::ShowCursor), b"\x1b[?25h".to_vec());
    assert_eq!(style_bytes(Style::Home), b"\x1b[H".to_vec());
    assert_eq!(style_bytes(Style::ClearLine), b"\x1b[K".to_vec());
    assert_eq!(style_bytes(Style::Reverse), b"\x1b[7m".to_vec());
    assert_eq!(style_bytes(Style::StyleOff), b"\x1b[m".to_vec());
    assert_eq!(style_bytes(Style::Highlight), b"\x1b[1;93m".to_vec());
    assert_eq!(style_bytes(Style::ColorOff), b"\x1b[0m".to_vec());
}

#[test]
fn cursor_positioning_sequence() {
    assert_eq!(cursor_position_sequence(5, 1), b"\x1b[5;1H".to_vec());
    assert_eq!(cursor_position_sequence(12, 34), b"\x1b[12;34H".to_vec());
}

#[test]
fn naive_move_sequences() {
    assert_eq!(naive_move_sequence(CursorDirections::Up, 3), b"\x1b[3A".to_vec());
    assert_eq!(naive_move_sequence(CursorDirections::Down, 1), b"\x1b[1B".to_vec());
    assert_eq!(naive_move_sequence(CursorDirections::Right, 10), b"\x1b[10C".to_vec());
    assert_eq!(naive_move_sequence(CursorDirections::Left, 1), b"\x1b[1D".to_vec());
}

#[test]
fn clear_status_line_bytes() {
    assert_eq!(clear_status_sequence(b':', 3), b":   ".to_vec());
    assert_eq!(clear_status_sequence(b'/', 0), b"/".to_vec());
}

#[test]
fn draw_wraps_matches_in_highlight_pair() {
    let mut e = Editor::new();
    e.open("f", b"ab\n".to_vec());
    e.find_in_file(b"ab");
    assert_eq!(e.context.highlight_register, vec![(0, 2)]);
    e.cursor.rows(1);
    let mut out = AppendBuffer::new();
    draw(&e.context, &e.cursor, &e.data, &mut out);
    assert_eq!(out.buffer, b"0 \x1b[1;93mab\x1b[0m\x1b[K\r\n".to_vec());
}

#[test]
fn draw_emits_filler_past_document_end() {
    let e = Editor::new();
    let mut c = e.cursor;
    c.rows(2);
    let mut out = AppendBuffer::new();
    draw(&e.context, &c, &e.data, &mut out);
    assert_eq!(out.buffer, b"0 ~\x1b[K\r\n1 ~\x1b[K\r\n".to_vec());
}

#[test]
fn message_bar_shows_status_message() {
    let mut e = Editor::new();
    e.set_status_message("hello");
    let mut out = AppendBuffer::new();
    draw_message_bar(&e.context, &mut out);
    assert_eq!(out.buffer, b"\x1b[Khello".to_vec());
}

#[test]
fn status_bar_left_and_right_justified() {
    let mut e = Editor::new();
    e.cursor.rows(3);
    e.cursor.cols(40);
    let stamp = String::from("12:00:00 01/01/1970");
    let mut out = AppendBuffer::new();
    draw_status_bar(&e.context, &e.cursor, &mut out, &stamp);
    // "[--NORMAL--]" + "[No Name]" is 21 bytes; " [1/3] " + stamp is 26
    // bytes; 40 columns cannot fit both, so the line pads to the width
    let mut expect = b"\x1b[7m[--NORMAL--][No Name]".to_vec();
    expect.extend_from_slice(&[b' '; 19]);
    expect.extend_from_slice(b"\x1b[m\r\n");
    assert_eq!(out.buffer, expect);
}

#[test]
fn status_bar_exact_fit_places_right_text() {
    let mut e = Editor::new();
    e.cursor.rows(3);
    e.cursor.cols(60);
    e.context.dirty = true;
    e.context.mode = EditorModes::Insert;
    let stamp = String::from("12:00:00 01/01/1970");
    let mut out = AppendBuffer::new();
    draw_status_bar(&e.context, &e.cursor, &mut out, &stamp);
    // left: "[--INSERT--][No Name](modified)" = 31 bytes
    // right: " [1/3] 12:00:00 01/01/1970" = 26 bytes; 3 spaces fill to 60
    let mut expect = b"\x1b[7m[--INSERT--][No Name](modified)".to_vec();
    expect.extend_from_slice(b"   ");
    expect.extend_from_slice(b" [1/3] 12:00:00 01/01/1970");
    expect.extend_from_slice(b"\x1b[m\r\n");
    assert_eq!(out.buffer, expect);
}

#[test]
fn full_frame_structure() {
    let mut e = Editor::new();
    e.init_editor(4, 20); // two viewport rows
    e.open("f", b"hi\n".to_vec());
    let out = render(&e.context, &mut e.cursor, &e.data);
    let mut expect = b"\x1b[?25l\x1b[H".to_vec();
    expect.extend_from_slice(b"0 hi\x1b[K\r\n");
    expect.extend_from_slice(b"1 ~\x1b[K\r\n");
    // status bar: left 13 bytes, right 26 bytes, width 20: the right side
    // cannot fit, so the bar pads to the width and drops it
    expect.extend_from_slice(b"\x1b[7m[--NORMAL--]f");
    expect.extend_from_slice(&[b' '; 7]);
    expect.extend_from_slice(b"\x1b[m\r\n");
    expect.extend_from_slice(b"\x1b[K"); // empty message bar
    expect.extend_from_slice(b"\x1b[1;1H"); // cursor at origin
    expect.extend_from_slice(b"\x1b[?25h");
    assert_eq!(out, expect);
}

#[test]
fn frame_parks_cursor_on_active_match() {
    let mut e = Editor::new();
    e.init_editor(4, 30);
    e.open("f", b"foo\nbar\n".to_vec());
    e.find_in_file(b"bar");
    let out = render(&e.context, &mut e.cursor, &e.data);
    let tail = b"\x1b[1;0H\x1b[?25h".to_vec();
    assert!(out.ends_with(&tail));
}
