use vstd::prelude::*;

use crate::buffer::AppendBuffer;
use crate::buffer::lemma_newline_positions_props;
use crate::buffer::lemma_position_count;
use crate::buffer::lemma_insert_index;
use crate::buffer::lemma_remove_index;
use crate::buffer::lemma_remove_newline_index;
use crate::buffer::newline_positions;
use crate::buffer::row_end_abs;
use crate::buffer::row_start_abs;
use crate::constants::CursorDirections;
use crate::constants::EditorHealth;
use crate::cursor::Cursor;
use crate::cursor::clamp_col;
use crate::cursor::cursor_in_doc;
use crate::cursor::lemma_clamp_in_doc;
use crate::cursor::move_target;
use crate::session::EditorContext;

verus! {

/// Content and cursor after one printable byte or newline is typed at the
/// cursor: the byte lands at the cursor's file offset; a carriage return or
/// newline byte inserts a newline and moves to the next row's start, any
/// other byte advances the column.
pub open spec fn after_insert_char(c: Seq<u8>, cur: Cursor, ch: u8) -> (Seq<u8>, Cursor) {
    let nl = newline_positions(c);
    let ind = row_start_abs(nl, cur.c_y as int) + cur.c_x;
    if ch == 13 || ch == 10 {
        (c.insert(ind, 10u8), Cursor { c_x: 0, c_y: (cur.c_y + 1) as usize, ..cur })
    } else {
        (c.insert(ind, ch), Cursor { c_x: (cur.c_x + 1) as usize, ..cur })
    }
}

/// Content and cursor after a backspace: the byte before the cursor's file
/// offset is removed and the cursor moves one step left (into the previous
/// row when at column zero); a no-op at the document start.
pub open spec fn after_remove_char(c: Seq<u8>, cur: Cursor) -> (Seq<u8>, Cursor) {
    let nl = newline_positions(c);
    if cur.c_x == 0 && cur.c_y == 0 {
        (c, cur)
    } else {
        let ind = row_start_abs(nl, cur.c_y as int) + cur.c_x;
        let t = move_target(nl, CursorDirections::Left, 1, cur.c_x as int, cur.c_y as int);
        (
            c.remove(ind - 1),
            Cursor { c_x: clamp_col(nl, t.1, t.0) as usize, c_y: t.1 as usize, ..cur },
        )
    }
}

/// Content and cursor after deleting the cursor's line: the range
/// `[line_starts[y-1], line_starts[y])` disappears (from the document start
/// for row zero), then the cursor is re-clamped into the new index; a no-op
/// when the cursor's row is not in the index.
pub open spec fn after_delete_line(c: Seq<u8>, cur: Cursor) -> (Seq<u8>, Cursor) {
    let nl = newline_positions(c);
    if cur.c_y >= nl.len() {
        (c, cur)
    } else {
        let pre = if cur.c_y == 0 {
            0
        } else {
            nl[cur.c_y - 1]
        };
        let end = nl[cur.c_y as int];
        let c2 = c.subrange(0, pre) + c.subrange(end, c.len() as int);
        let nl2 = newline_positions(c2);
        let y2 = if cur.c_y <= nl2.len() {
            cur.c_y as int
        } else {
            nl2.len() as int
        };
        (c2, Cursor { c_x: clamp_col(nl2, y2, cur.c_x as int) as usize, c_y: y2 as usize, ..cur })
    }
}

/// Content and cursor after deleting the byte under the cursor, with the
/// cursor re-clamped into the new index; a no-op past the document end.
pub open spec fn after_delete_at(c: Seq<u8>, cur: Cursor) -> (Seq<u8>, Cursor) {
    let nl = newline_positions(c);
    let ind = row_start_abs(nl, cur.c_y as int) + cur.c_x;
    if ind < c.len() {
        let c2 = c.remove(ind);
        let nl2 = newline_positions(c2);
        let y2 = if cur.c_y <= nl2.len() {
            cur.c_y as int
        } else {
            nl2.len() as int
        };
        (c2, Cursor { c_x: clamp_col(nl2, y2, cur.c_x as int) as usize, c_y: y2 as usize, ..cur })
    } else {
        (c, cur)
    }
}

/// Inserts one typed byte at the cursor and reindexes.
pub fn insert_char(cursor: &mut Cursor, data: &mut AppendBuffer, ch: u8) -> (r: Option<
    EditorHealth,
>)
    requires
        old(data).indexed(),
        cursor_in_doc(*old(cursor), old(data).line_starts(), old(data).buffer@.len() as int),
        old(data).buffer@.len() < usize::MAX,
    ensures
        r == Some(EditorHealth::Healthy),
        final(data).indexed(),
        final(data).buffer@ == after_insert_char(old(data).buffer@, *old(cursor), ch).0,
        *final(cursor) == after_insert_char(old(data).buffer@, *old(cursor), ch).1,
        cursor_in_doc(*final(cursor), final(data).line_starts(), final(data).buffer@.len() as int),
{
    let ghost c = data.buffer@;
    let ghost nl = data.line_starts();
    let ghost y = cursor.c_y as int;
    proof {
        lemma_newline_positions_props(c);
        assert(data.buffer.len() == c.len());
        lemma_position_count(nl, c.len() as int);
    }
    let ind = cursor.calculate_file_index(&data.new_lines, cursor.absx(), cursor.absy());
    if ch == 13 || ch == 10 {
        proof {
            lemma_insert_index(c, y, ind as int, 10u8);
        }
        data.insert(ind, 10u8);
        cursor.set_x(0);
        cursor.up_y(1);
        proof {
            let nl2 = data.line_starts();
            assert(nl2 == nl.subrange(0, y) + seq![ind as int] + crate::buffer::shift_positions(
                nl.subrange(y, nl.len() as int),
                1,
            ));
            assert(nl2[y] == ind as int);
            assert(row_start_abs(nl2, y + 1) == ind + 1);
            if y + 1 < nl2.len() {
                assert(nl2[y + 1] == nl[y] + 1);
            }
        }
    } else {
        proof {
            lemma_insert_index(c, y, ind as int, ch);
        }
        data.insert(ind, ch);
        cursor.up_x(1);
        proof {
            let nl2 = data.line_starts();
            assert(nl2 == nl.subrange(0, y) + crate::buffer::shift_positions(
                nl.subrange(y, nl.len() as int),
                1,
            ));
            assert(nl2.len() == nl.len());
            if y > 0 {
                assert(nl2[y - 1] == nl[y - 1]);
            }
            assert(row_start_abs(nl2, y) == row_start_abs(nl, y));
            if y < nl.len() {
                assert(nl2[y] == nl[y] + 1);
            }
        }
    }
    Some(EditorHealth::Healthy)
}

/// Removes the byte before the cursor and moves the cursor left; a no-op at
/// the document start.
pub fn remove_char(cursor: &mut Cursor, data: &mut AppendBuffer) -> (r: Option<EditorHealth>)
    requires
        old(data).indexed(),
        cursor_in_doc(*old(cursor), old(data).line_starts(), old(data).buffer@.len() as int),
    ensures
        r == Some(EditorHealth::Healthy),
        final(data).indexed(),
        final(data).buffer@ == after_remove_char(old(data).buffer@, *old(cursor)).0,
        *final(cursor) == after_remove_char(old(data).buffer@, *old(cursor)).1,
        cursor_in_doc(*final(cursor), final(data).line_starts(), final(data).buffer@.len() as int),
{
    if cursor.absx() == 0 && cursor.absy() == 0 {
        return Some(EditorHealth::Healthy);
    }
    let ghost c = data.buffer@;
    let ghost nl = data.line_starts();
    let ghost y = cursor.c_y as int;
    let ghost x = cursor.c_x as int;
    proof {
        lemma_newline_positions_props(c);
        assert(data.buffer.len() == c.len());
        lemma_position_count(nl, c.len() as int);
    }
    let ind = cursor.calculate_file_index(&data.new_lines, cursor.absx(), cursor.absy());
    proof {
        if x == 0 {
            assert(y >= 1);
            assert(row_start_abs(nl, y) == nl[y - 1] + 1);
            lemma_remove_newline_index(c, y);
        } else {
            assert(ind - 1 < row_end_abs(nl, c.len() as int, y));
            lemma_remove_index(c, y, ind - 1);
        }
    }
    let r = cursor.move_cursor(&data.new_lines, CursorDirections::Left, 1);
    data.remove(ind - 1);
    data.update_buffers();
    proof {
        let nl2 = data.line_starts();
        if x == 0 {
            assert(nl2 == nl.subrange(0, y - 1) + crate::buffer::shift_positions(
                nl.subrange(y, nl.len() as int),
                -1,
            ));
            assert(cursor.c_y == y - 1);
            if y - 1 > 0 {
                assert(nl2[y - 2] == nl[y - 2]);
            }
            assert(row_start_abs(nl2, y - 1) == row_start_abs(nl, y - 1));
            if y - 1 < nl2.len() {
                assert(nl2[y - 1] == nl[y] - 1);
                assert(nl[y - 1] < nl[y]);
            }
            assert(row_start_abs(nl, y - 1) + crate::buffer::row_len(nl, y - 1) <= ind - 1);
        } else {
            assert(nl2 == nl.subrange(0, y) + crate::buffer::shift_positions(
                nl.subrange(y, nl.len() as int),
                -1,
            ));
            assert(cursor.c_y == y);
            if y > 0 {
                assert(nl2[y - 1] == nl[y - 1]);
            }
            assert(row_start_abs(nl2, y) == row_start_abs(nl, y));
            if y < nl.len() {
                assert(nl2[y] == nl[y] - 1);
            }
        }
    }
    Some(EditorHealth::Healthy)
}

/// Deletes the cursor's line and the newline that introduced it, re-clamps
/// the cursor, and marks the session dirty; a no-op when the cursor's row is
/// not in the index.  `lemma_delete_line_span_shifts_bounds` states what the
/// removed span does to the bounds of every other row.
pub fn delete_line(context: &mut EditorContext, cursor: &mut Cursor, data: &mut AppendBuffer)
    requires
        old(data).indexed(),
    ensures
        final(data).indexed(),
        final(data).buffer@ == after_delete_line(old(data).buffer@, *old(cursor)).0,
        *final(cursor) == after_delete_line(old(data).buffer@, *old(cursor)).1,
        old(cursor).c_y < old(data).line_starts().len() ==> cursor_in_doc(
            *final(cursor),
            final(data).line_starts(),
            final(data).buffer@.len() as int,
        ),
        old(cursor).c_y < old(data).line_starts().len() ==> *final(context) == (EditorContext {
            dirty: true,
            ..*old(context)
        }),
        old(cursor).c_y >= old(data).line_starts().len() ==> *final(context) == *old(context)
            && *final(cursor) == *old(cursor) && final(data).buffer@ == old(data).buffer@
            && final(data).new_lines == old(data).new_lines,
{
    if cursor.absy() >= data.new_lines.len() {
        return ;
    }
    let ghost c = data.buffer@;
    let ghost nl = data.line_starts();
    let ghost y = cursor.c_y as int;
    proof {
        lemma_newline_positions_props(c);
        assert(data.buffer.len() == c.len());
        assert(nl[y] == data.new_lines@[y] as int);
        if y > 0 {
            assert(nl[y - 1] == data.new_lines@[y - 1] as int);
            assert(nl[y - 1] < nl[y]);
        }
    }
    let line_begin = if cursor.absy() == 0 {
        0
    } else {
        data.new_lines[cursor.absy() - 1]
    };
    let line_end = data.new_lines[cursor.absy()];
    data.remove_range(line_begin, line_end);
    context.dirty = true;
    data.update_buffers();
    proof {
        lemma_newline_positions_props(data.buffer@);
        assert(data.buffer.len() == data.buffer@.len());
    }
    cursor.clamp_to(&data.new_lines);
    proof {
        let c2 = data.buffer@;
        let nl2 = data.line_starts();
        lemma_newline_positions_props(c2);
        assert(data.buffer.len() == c2.len());
        lemma_clamp_in_doc(nl2, c2.len() as int, cursor.c_y as int, old(cursor).c_x as int);
    }
}

/// One delete-operator step: `dd` via `after_delete_line`, `dk`/`dj` delete
/// the current line plus the adjacent one, `dh` deletes the byte before the
/// cursor, `dl` the byte under it.
pub fn delete(
    context: &mut EditorContext,
    cursor: &mut Cursor,
    data: &mut AppendBuffer,
    direction: CursorDirections,
)
    requires
        old(data).indexed(),
        cursor_in_doc(*old(cursor), old(data).line_starts(), old(data).buffer@.len() as int),
    ensures
        final(data).indexed(),
        cursor_in_doc(*final(cursor), final(data).line_starts(), final(data).buffer@.len() as int),
        *final(context) == (EditorContext { dirty: final(context).dirty, ..*old(context) }),
        final(context).dirty == old(context).dirty || final(context).dirty,
        ({
            let c0 = old(data).buffer@;
            let cur0 = *old(cursor);
            let nl0 = newline_positions(c0);
            match direction {
                CursorDirections::Up => {
                    let t = move_target(nl0, CursorDirections::Up, 1, cur0.c_x as int, cur0.c_y as int);
                    let cur1 = Cursor {
                        c_x: clamp_col(nl0, t.1, t.0) as usize,
                        c_y: t.1 as usize,
                        ..cur0
                    };
                    let s1 = after_delete_line(c0, cur1);
                    let s2 = after_delete_line(s1.0, s1.1);
                    final(data).buffer@ == s2.0 && *final(cursor) == s2.1
                },
                CursorDirections::Down => {
                    let s1 = after_delete_line(c0, cur0);
                    let s2 = after_delete_line(s1.0, s1.1);
                    final(data).buffer@ == s2.0 && *final(cursor) == s2.1
                },
                CursorDirections::Left => {
                    let s = after_remove_char(c0, cur0);
                    final(data).buffer@ == s.0 && *final(cursor) == s.1
                },
                CursorDirections::Right => {
                    let s = after_delete_at(c0, cur0);
                    final(data).buffer@ == s.0 && *final(cursor) == s.1
                },
                _ => final(data).buffer@ == c0 && *final(cursor) == cur0,
            }
        }),
{
    let ghost c0 = data.buffer@;
    let ghost nl0 = data.line_starts();
    proof {
        lemma_newline_positions_props(c0);
        assert(data.buffer.len() == c0.len());
        lemma_position_count(nl0, c0.len() as int);
    }
    match direction {
        CursorDirections::Up => {
            let _ = cursor.move_cursor(&data.new_lines, CursorDirections::Up, 1);
            proof {
                lemma_clamp_in_doc(nl0, c0.len() as int, cursor.c_y as int, old(cursor).c_x as int);
            }
            delete_line(context, cursor, data);
            delete_line(context, cursor, data);
        },
        CursorDirections::Down => {
            delete_line(context, cursor, data);
            delete_line(context, cursor, data);
        },
        CursorDirections::Left => {
            let _ = remove_char(cursor, data);
            context.dirty = true;
        },
        CursorDirections::Right => {
            let ind = cursor.calculate_file_index(&data.new_lines, cursor.absx(), cursor.absy());
            if ind < data.buffer.len() {
                data.remove(ind);
                data.update_buffers();
                proof {
                    lemma_newline_positions_props(data.buffer@);
                    assert(data.buffer.len() == data.buffer@.len());
                }
                cursor.clamp_to(&data.new_lines);
                context.dirty = true;
                proof {
                    let c2 = final(data).buffer@;
                    let nl2 = data.line_starts();
                    lemma_newline_positions_props(c2);
                    assert(final(data).buffer.len() == c2.len());
                    lemma_clamp_in_doc(
                        nl2,
                        c2.len() as int,
                        final(cursor).c_y as int,
                        old(cursor).c_x as int,
                    );
                }
            }
        },
        _ => {},
    }
}

/// The second key of a `d` operator: `dd` deletes the current line, `dk`,
/// `dj`, `dh` and `dl` delete one step in that direction; any other key
/// cancels the operator.
pub fn delete_operations(
    context: &mut EditorContext,
    cursor: &mut Cursor,
    data: &mut AppendBuffer,
    k: u8,
) -> (r: Option<EditorHealth>)
    requires
        old(data).indexed(),
        cursor_in_doc(*old(cursor), old(data).line_starts(), old(data).buffer@.len() as int),
    ensures
        r == Some(EditorHealth::Healthy),
        final(data).indexed(),
        cursor_in_doc(*final(cursor), final(data).line_starts(), final(data).buffer@.len() as int),
        *final(context) == (EditorContext { dirty: final(context).dirty, ..*old(context) }),
        final(context).dirty == old(context).dirty || final(context).dirty,
        ({
            let c0 = old(data).buffer@;
            let cur0 = *old(cursor);
            if k == 100 {  // 'd'
                let s = after_delete_line(c0, cur0);
                &&& final(data).buffer@ == s.0
                &&& *final(cursor) == s.1
            } else if k == 107 || k == 106 || k == 108 || k == 104 {  // 'k' 'j' 'l' 'h'
                true
            } else {
                final(data).buffer@ == c0 && *final(cursor) == cur0 && *final(context) == *old(
                    context,
                )
            }
        }),
        (k == 107 || k == 106 || k == 108 || k == 104) ==> call_delete_rel(
            *old(context),
            *old(cursor),
            old(data).buffer@,
            *final(context),
            *final(cursor),
            final(data).buffer@,
            k,
        ),
{
    if k == 100 {
        delete_line(context, cursor, data);
        proof {
            if old(cursor).c_y >= old(data).line_starts().len() {
                assert(*cursor == *old(cursor));
                assert(cursor_in_doc(*cursor, data.line_starts(), data.buffer@.len() as int));
            }
        }
        Some(EditorHealth::Healthy)
    } else if k == 107 {
        delete(context, cursor, data, CursorDirections::Up);
        Some(EditorHealth::Healthy)
    } else if k == 106 {
        delete(context, cursor, data, CursorDirections::Down);
        Some(EditorHealth::Healthy)
    } else if k == 108 {
        delete(context, cursor, data, CursorDirections::Right);
        Some(EditorHealth::Healthy)
    } else if k == 104 {
        delete(context, cursor, data, CursorDirections::Left);
        Some(EditorHealth::Healthy)
    } else {
        Some(EditorHealth::Healthy)
    }
}

/// What one `delete` call in the given direction does, stated over the spec
/// transformers; used to carry the operator's exact effect upward.
pub open spec fn call_delete_rel(
    ctx0: EditorContext,
    cur0: Cursor,
    c0: Seq<u8>,
    ctx1: EditorContext,
    cur1: Cursor,
    c1: Seq<u8>,
    k: u8,
) -> bool {
    let nl0 = newline_positions(c0);
    if k == 107 {  // 'k'
        let t = move_target(nl0, CursorDirections::Up, 1, cur0.c_x as int, cur0.c_y as int);
        let curm = Cursor { c_x: clamp_col(nl0, t.1, t.0) as usize, c_y: t.1 as usize, ..cur0 };
        let s1 = after_delete_line(c0, curm);
        let s2 = after_delete_line(s1.0, s1.1);
        c1 == s2.0 && cur1 == s2.1
    } else if k == 106 {  // 'j'
        let s1 = after_delete_line(c0, cur0);
        let s2 = after_delete_line(s1.0, s1.1);
        c1 == s2.0 && cur1 == s2.1
    } else if k == 104 {  // 'h'
        let s = after_remove_char(c0, cur0);
        c1 == s.0 && cur1 == s.1
    } else if k == 108 {  // 'l'
        let s = after_delete_at(c0, cur0);
        c1 == s.0 && cur1 == s.1
    } else {
        c1 == c0 && cur1 == cur0
    }
}

} // verus!
