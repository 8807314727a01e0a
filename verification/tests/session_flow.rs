use yim::Editor;
use yim::EditorAction;
use yim::EditorHealth;
use yim::EditorModes;
use yim::SubMode;

fn type_keys(e: &mut Editor, keys: &[u8]) {
    for k in keys {
        let _ = e.process_key_press(*k);
    }
}

#[test]
fn typing_builds_two_line_document() {
    // start empty, type i, h, i, Enter, w, o, r, l, d, Esc
    let mut e = Editor::new();
    type_keys(&mut e, &[b'i', b'h', b'i', b'\r', b'w', b'o', b'r', b'l', b'd', 27]);
    assert_eq!(e.data.buffer, b"hi\nworld".to_vec());
    assert_eq!(e.data.new_lines, vec![2]);
    assert_eq!(e.context.mode, EditorModes::Normal);
    assert_eq!(e.context.dirty, true);
}

#[test]
fn dd_deletes_current_line() {
    let mut e = Editor::new();
    e.open("f", b"foo\nbar\nbaz".to_vec());
    type_keys(&mut e, &[b'j']); // cursor to row 1 ("bar")
    assert_eq!(e.cursor.absy(), 1);
    type_keys(&mut e, &[b'd', b'd']);
    assert_eq!(e.data.buffer, b"foo\nbaz".to_vec());
    assert_eq!(e.context.dirty, true);
    assert_eq!(e.sub_mode, SubMode::Base);
}

#[test]
fn dd_on_row_missing_from_index_is_noop() {
    let mut e = Editor::new();
    e.open("f", b"tail".to_vec()); // no newline at all
    type_keys(&mut e, &[b'd', b'd']);
    assert_eq!(e.data.buffer, b"tail".to_vec());
}

#[test]
fn dh_deletes_byte_before_cursor() {
    let mut e = Editor::new();
    e.open("f", b"abc\n".to_vec());
    type_keys(&mut e, &[b'l', b'l']); // cursor to column 2
    assert_eq!(e.cursor.absx(), 2);
    type_keys(&mut e, &[b'd', b'h']);
    assert_eq!(e.data.buffer, b"ac\n".to_vec());
}

#[test]
fn dl_deletes_byte_under_cursor() {
    let mut e = Editor::new();
    e.open("f", b"abc\n".to_vec());
    type_keys(&mut e, &[b'l']); // cursor on 'b'
    type_keys(&mut e, &[b'd', b'l']);
    assert_eq!(e.data.buffer, b"ac\n".to_vec());
}

#[test]
fn dj_deletes_current_and_next_line() {
    let mut e = Editor::new();
    e.open("f", b"one\ntwo\nthree\nfour\n".to_vec());
    type_keys(&mut e, &[b'j']); // cursor to row 1 ("two")
    type_keys(&mut e, &[b'd', b'j']);
    assert_eq!(e.data.buffer, b"one\nfour\n".to_vec());
}

#[test]
fn backspace_joins_rows() {
    let mut e = Editor::new();
    e.open("f", b"ab\ncd\n".to_vec());
    type_keys(&mut e, &[b'j', b'i']); // row 1, insert mode at column 0
    assert_eq!(e.cursor.absy(), 1);
    type_keys(&mut e, &[127]);
    assert_eq!(e.data.buffer, b"abcd\n".to_vec());
    assert_eq!(e.cursor.absy(), 0);
}

#[test]
fn backspace_at_document_start_is_noop() {
    let mut e = Editor::new();
    e.open("f", b"xy".to_vec());
    type_keys(&mut e, &[b'i', 127]);
    assert_eq!(e.data.buffer, b"xy".to_vec());
}

#[test]
fn search_cycling_forward_and_backward() {
    // two matches: highlight cursor runs 0,1,0,... under n and 1,0,1,...
    // under N from start 0
    let mut e = Editor::new();
    e.open("f", b"abcabc".to_vec());
    e.find_in_file(b"abc");
    assert_eq!(e.context.highlight_register, vec![(0, 3), (3, 6)]);
    assert_eq!(e.context.h_reg, 0);
    let _ = e.update_h_reg(b'n');
    assert_eq!(e.context.h_reg, 1);
    let _ = e.update_h_reg(b'n');
    assert_eq!(e.context.h_reg, 0);
    let _ = e.update_h_reg(b'N');
    assert_eq!(e.context.h_reg, 1);
    let _ = e.update_h_reg(b'N');
    assert_eq!(e.context.h_reg, 0);
    let _ = e.update_h_reg(b'N');
    assert_eq!(e.context.h_reg, 1);
}

#[test]
fn cycle_with_no_matches_is_noop() {
    let mut e = Editor::new();
    let _ = e.update_h_reg(b'n');
    assert_eq!(e.context.h_reg, 0);
}

#[test]
fn search_filters_overlapping_matches() {
    let mut e = Editor::new();
    e.open("f", b"aaa".to_vec());
    e.find_in_file(b"aa");
    assert_eq!(e.context.highlight_register, vec![(0, 2)]);
}

#[test]
fn live_search_entry_updates_highlights_per_key() {
    let mut e = Editor::new();
    e.open("f", b"abcabc".to_vec());
    type_keys(&mut e, &[b'/']);
    assert_eq!(e.sub_mode, SubMode::Search);
    type_keys(&mut e, &[b'a', b'b']);
    assert_eq!(e.context.highlight_register, vec![(0, 2), (3, 5)]);
    type_keys(&mut e, &[b'\r']);
    assert_eq!(e.sub_mode, SubMode::Base);
    // the committed highlights stay after leaving the sub-mode
    assert_eq!(e.context.highlight_register, vec![(0, 2), (3, 5)]);
}

#[test]
fn quit_refused_while_dirty() {
    let mut e = Editor::new();
    type_keys(&mut e, &[b'i', b'x', 27]);
    assert!(e.context.dirty);
    type_keys(&mut e, &[b':', b'q', b'\r']);
    assert_eq!(e.context.state, EditorHealth::Healthy);
    assert_eq!(
        e.context.status_message,
        "You have unsaved changes, press :q! to quit without saving"
    );
}

#[test]
fn force_quit_exits_despite_dirty() {
    let mut e = Editor::new();
    type_keys(&mut e, &[b'i', b'x', 27]);
    type_keys(&mut e, &[b':', b'q', b'!', b'\r']);
    assert_eq!(e.context.state, EditorHealth::Exit);
}

#[test]
fn quit_clean_session_exits() {
    let mut e = Editor::new();
    type_keys(&mut e, &[b':', b'q', b'\r']);
    assert_eq!(e.context.state, EditorHealth::Exit);
}

#[test]
fn unknown_command_reports_status() {
    let mut e = Editor::new();
    type_keys(&mut e, &[b':', b'z', b'z', b'\r']);
    assert_eq!(e.context.status_message, "This command does not exist!!!");
    assert_eq!(e.context.state, EditorHealth::Healthy);
}

#[test]
fn write_command_names_open_file() {
    let mut e = Editor::new();
    e.open("notes.txt", b"x".to_vec());
    let mut action = EditorAction::Idle;
    for k in [b':', b'w', b'\r'] {
        action = e.process_key_press(k);
    }
    match action {
        EditorAction::Save(p) => assert_eq!(p, b"notes.txt".to_vec()),
        _ => panic!("expected a save action"),
    }
}

#[test]
fn write_command_with_argument() {
    let mut e = Editor::new();
    let mut action = EditorAction::Idle;
    for k in [b':', b'w', b' ', b'o', b'u', b't', b'\r'] {
        action = e.process_key_press(k);
    }
    match action {
        EditorAction::Save(p) => assert_eq!(p, b"out".to_vec()),
        _ => panic!("expected a save action"),
    }
}

#[test]
fn write_without_any_name_is_refused() {
    let mut e = Editor::new();
    let mut action = EditorAction::Idle;
    for k in [b':', b'w', b'\r'] {
        action = e.process_key_press(k);
    }
    assert!(matches!(action, EditorAction::Idle));
    assert_eq!(e.context.status_message, "No file name");
}

#[test]
fn write_quit_saves_and_exits() {
    let mut e = Editor::new();
    e.open("f", b"x".to_vec());
    let mut action = EditorAction::Idle;
    for k in [b':', b'w', b'q', b'\r'] {
        action = e.process_key_press(k);
    }
    match action {
        EditorAction::SaveAndQuit(p) => assert_eq!(p, b"f".to_vec()),
        _ => panic!("expected a save-and-quit action"),
    }
    assert_eq!(e.context.state, EditorHealth::Exit);
}

#[test]
fn open_command_asks_for_load() {
    let mut e = Editor::new();
    let mut action = EditorAction::Idle;
    for k in [b':', b'o', b' ', b'f', b'2', b'\r'] {
        action = e.process_key_press(k);
    }
    match action {
        EditorAction::Load(p) => assert_eq!(p, b"f2".to_vec()),
        _ => panic!("expected a load action"),
    }
}

#[test]
fn search_command_sets_highlights() {
    let mut e = Editor::new();
    e.open("f", b"abcabc".to_vec());
    for k in [b':', b's', b' ', b'a', b'b', b'c', b'\r'] {
        let _ = e.process_key_press(k);
    }
    assert_eq!(e.context.highlight_register, vec![(0, 3), (3, 6)]);
}

#[test]
fn noh_clears_highlights() {
    let mut e = Editor::new();
    e.open("f", b"abcabc".to_vec());
    e.find_in_file(b"abc");
    for k in [b':', b'n', b'o', b'h', b'\r'] {
        let _ = e.process_key_press(k);
    }
    assert_eq!(e.context.highlight_register, Vec::<(usize, usize)>::new());
    assert_eq!(e.context.h_reg, 0);
}

#[test]
fn command_entry_backspace_and_escape() {
    let mut e = Editor::new();
    type_keys(&mut e, &[b':', b'q', b'z', 127, 27]);
    // escape cancelled: nothing executed, session healthy
    assert_eq!(e.context.state, EditorHealth::Healthy);
    assert_eq!(e.sub_mode, SubMode::Base);
    assert_eq!(e.cmd_reg, Vec::<u8>::new());
}

#[test]
fn count_register_accumulates_until_enter() {
    let mut e = Editor::new();
    type_keys(&mut e, &[b'4', b'2', b'\r']);
    assert_eq!(e.context.line_reg, 41); // stored zero-based
    assert_eq!(e.sub_mode, SubMode::Base);
}

#[test]
fn count_register_escape_cancels() {
    let mut e = Editor::new();
    type_keys(&mut e, &[b'7', 27]);
    assert_eq!(e.context.line_reg, 0);
    assert_eq!(e.count_reg, 0);
}

#[test]
fn insert_entry_keys_position_cursor() {
    let mut e = Editor::new();
    e.open("f", b"abcde\n".to_vec());
    type_keys(&mut e, &[b'l', b'l']); // column 2
    type_keys(&mut e, &[b'A']);
    assert_eq!(e.context.mode, EditorModes::Insert);
    assert_eq!(e.cursor.absx(), 4); // clamped to the last valid column
    type_keys(&mut e, &[27, b'I']);
    assert_eq!(e.cursor.absx(), 0);
    assert_eq!(e.context.mode, EditorModes::Insert);
}

#[test]
fn open_resets_cursor_and_keeps_name() {
    let mut e = Editor::new();
    e.open("f", b"one\ntwo\n".to_vec());
    type_keys(&mut e, &[b'j', b'l']);
    e.open("g", b"x\n".to_vec());
    assert_eq!(e.context.files, b"g".to_vec());
    assert_eq!((e.cursor.absx(), e.cursor.absy()), (0, 0));
    assert_eq!(e.data.buffer, b"x\n".to_vec());
}

#[test]
fn load_then_save_is_byte_identical() {
    let content = b"line one\nline two\nno trailing newline".to_vec();
    let mut e = Editor::new();
    e.open("f", content.clone());
    let written = e.data.serialize();
    assert_eq!(written, content);
}

#[test]
fn report_save_success_clears_dirty() {
    let mut e = Editor::new();
    type_keys(&mut e, &[b'i', b'x', 27]);
    assert!(e.context.dirty);
    e.report_save(true, 905);
    assert!(!e.context.dirty);
    assert_eq!(e.context.status_message, "905 B written");
}

#[test]
fn report_save_failure_keeps_dirty() {
    let mut e = Editor::new();
    type_keys(&mut e, &[b'i', b'x', 27]);
    e.report_save(false, 0);
    assert!(e.context.dirty);
    assert_eq!(e.context.status_message, "Cannot save to file");
}

#[test]
fn active_match_screen_position() {
    let mut e = Editor::new();
    e.open("f", b"foo\nbar\nbaz\n".to_vec());
    e.find_in_file(b"baz");
    assert_eq!(e.context.highlight_register, vec![(8, 11)]);
    let (col, row) = e.file_index_to_cursor();
    assert_eq!((col, row), (0, 2));
}

#[test]
fn unknown_normal_key_changes_nothing() {
    let mut e = Editor::new();
    e.open("f", b"ab\n".to_vec());
    let before = e.data.buffer.clone();
    type_keys(&mut e, &[b'Z']);
    assert_eq!(e.data.buffer, before);
    assert_eq!(e.context.mode, EditorModes::Normal);
}

#[test]
fn dk_deletes_current_and_previous_line() {
    let mut e = Editor::new();
    e.open("f", b"a\nb\nc\nd\n".to_vec());
    type_keys(&mut e, &[b'j', b'j']); // cursor to row 2 ("c")
    assert_eq!(e.cursor.absy(), 2);
    type_keys(&mut e, &[b'd', b'k']);
    assert_eq!(e.data.buffer, b"a\nd\n".to_vec());
}

#[test]
fn empty_query_yields_empty_range_set() {
    let mut e = Editor::new();
    e.open("f", b"abcabc".to_vec());
    e.find_in_file(b"");
    assert_eq!(e.context.highlight_register, Vec::<(usize, usize)>::new());
    assert_eq!(e.context.h_reg, 0);
}

#[test]
fn search_command_without_argument_clears_highlights() {
    let mut e = Editor::new();
    e.open("f", b"abcabc".to_vec());
    e.find_in_file(b"abc");
    assert_eq!(e.context.highlight_register.len(), 2);
    for k in [b':', b's', b'\r'] {
        let _ = e.process_key_press(k);
    }
    assert_eq!(e.context.highlight_register, Vec::<(usize, usize)>::new());
}

#[test]
fn search_entry_backspace_reruns_search() {
    let mut e = Editor::new();
    e.open("f", b"abcabc".to_vec());
    type_keys(&mut e, &[b'/', b'a', b'b']);
    assert_eq!(e.context.highlight_register, vec![(0, 2), (3, 5)]);
    type_keys(&mut e, &[127]); // query shrinks to "a"
    assert_eq!(e.context.highlight_register, vec![(0, 1), (3, 4)]);
    type_keys(&mut e, &[127]); // query shrinks to ""
    assert_eq!(e.context.highlight_register, Vec::<(usize, usize)>::new());
}

#[test]
fn dd_keeps_earlier_bounds_and_shifts_later_rows() {
    let mut e = Editor::new();
    e.open("f", b"foo\nbar\nbaz\n".to_vec());
    assert_eq!(e.data.new_lines, vec![3, 7, 11]);
    type_keys(&mut e, &[b'j', b'd', b'd']);
    // row 0 keeps its bounds; old row 2 reappears as row 1, shifted by the
    // deleted span's width
    assert_eq!(e.data.buffer, b"foo\nbaz\n".to_vec());
    assert_eq!(e.data.new_lines, vec![3, 7]);
}
