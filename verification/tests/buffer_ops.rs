use yim::AppendBuffer;

#[test]
fn reindex_matches_newline_positions() {
    let mut ab = AppendBuffer::new();
    ab.append(b"ab\nc\n");
    ab.update_buffers();
    assert_eq!(ab.new_lines, vec![2, 4]);
}

#[test]
fn reindex_after_insert_and_remove_sequence() {
    let mut ab = AppendBuffer::new();
    ab.append(b"one\ntwo");
    ab.update_buffers();
    assert_eq!(ab.new_lines, vec![3]);
    ab.insert(0, b'\n');
    assert_eq!(ab.new_lines, vec![0, 4]);
    ab.insert(8, b'\n');
    assert_eq!(ab.new_lines, vec![0, 4, 8]);
    ab.remove(0);
    ab.update_buffers();
    assert_eq!(ab.new_lines, vec![3, 7]);
    assert_eq!(ab.buffer, b"one\ntwo\n".to_vec());
}

#[test]
fn reindex_empty_content() {
    let mut ab = AppendBuffer::new();
    ab.update_buffers();
    assert_eq!(ab.new_lines, Vec::<usize>::new());
}

#[test]
fn find_reports_every_match_in_order() {
    let mut ab = AppendBuffer::new();
    ab.append(b"abcabc");
    ab.update_buffers();
    let r = ab.find("abc");
    assert_eq!(r, vec![(0, 3), (3, 6)]);
}

#[test]
fn find_reports_overlapping_matches() {
    let mut ab = AppendBuffer::new();
    ab.append(b"aaa");
    let r = ab.find("aa");
    assert_eq!(r, vec![(0, 2), (1, 3)]);
}

#[test]
fn find_match_at_very_end() {
    let mut ab = AppendBuffer::new();
    ab.append(b"xxabc");
    let r = ab.find("abc");
    assert_eq!(r, vec![(2, 5)]);
}

#[test]
fn find_no_match() {
    let mut ab = AppendBuffer::new();
    ab.append(b"hello");
    let r = ab.find("xyz");
    assert_eq!(r, Vec::<(usize, usize)>::new());
}

#[test]
fn find_query_longer_than_content() {
    let mut ab = AppendBuffer::new();
    ab.append(b"ab");
    let r = ab.find("abc");
    assert_eq!(r, Vec::<(usize, usize)>::new());
}

#[test]
fn remove_range_shifts_content() {
    let mut ab = AppendBuffer::new();
    ab.append(b"0123456789");
    ab.remove_range(2, 5);
    assert_eq!(ab.buffer, b"0156789".to_vec());
}

#[test]
fn remove_range_empty_range() {
    let mut ab = AppendBuffer::new();
    ab.append(b"abc");
    ab.remove_range(1, 1);
    assert_eq!(ab.buffer, b"abc".to_vec());
}

#[test]
fn remove_row_deletes_exact_bounds_and_shifts_rest() {
    // rows: "foo" [0,3), "bar" [4,7), "baz" [8,11)
    let mut ab = AppendBuffer::new();
    ab.append(b"foo\nbar\nbaz\n");
    ab.update_buffers();
    assert_eq!(ab.new_lines, vec![3, 7, 11]);
    // deleting row 1 removes exactly [4,7); its newline stays, later rows
    // shift left by the removed width
    ab.remove_row(1);
    assert_eq!(ab.buffer, b"foo\n\nbaz\n".to_vec());
    assert_eq!(ab.new_lines, vec![3, 4, 8]);
}

#[test]
fn remove_row_first_row() {
    let mut ab = AppendBuffer::new();
    ab.append(b"ab\ncd\n");
    ab.update_buffers();
    ab.remove_row(0);
    assert_eq!(ab.buffer, b"\ncd\n".to_vec());
    assert_eq!(ab.new_lines, vec![0, 3]);
}

#[test]
fn serialize_returns_content_verbatim() {
    let mut ab = AppendBuffer::new();
    ab.append(b"raw\x00bytes\xff\n");
    let out = ab.serialize();
    assert_eq!(out, b"raw\x00bytes\xff\n".to_vec());
}

#[test]
fn append_str_and_free() {
    let mut ab = AppendBuffer::new();
    ab.append_str("hi");
    assert_eq!(ab.buffer, b"hi".to_vec());
    ab.free();
    assert_eq!(ab.buffer, Vec::<u8>::new());
}
