use vstd::prelude::*;

use crate::buffer::AppendBuffer;
use crate::buffer::lemma_newline_positions_props;
use crate::buffer::row_bounds_end;
use crate::buffer::row_bounds_start;
use crate::constants::CursorDirections;
use crate::constants::EditorModes;
use crate::cursor::Cursor;
use crate::session::EditorContext;
use crate::session::file_index_to_cursor;
use crate::session::screen_pos_of;
use crate::text::dec_bytes;
use crate::text::usize_to_bytes;

verus! {

use vstd::string::StringSliceAdditionalSpecFns;
use vstd::slice::slice_subrange;

/// The text chrono renders for a timestamp: `%T %d/%m/%Y` of the given
/// number of seconds since the Unix epoch, in UTC.  The result depends on
/// the seconds value alone.
pub uninterp spec fn timestamp_text_of(secs: u64) -> Seq<char>;

/// Relies on chrono's `DateTime::<Utc>::from_timestamp_secs` and its strftime
/// formatting: a UTC timestamp formatted with `%T %d/%m/%Y` is a function of
/// the seconds value alone (empty for an out-of-range value).
#[verifier::external_body]
pub fn format_timestamp(secs: u64) -> (r: String)
    ensures
        r@ == timestamp_text_of(secs),
{
    match chrono::DateTime::<chrono::Utc>::from_timestamp_secs(secs as i64) {
        Some(dt) => dt.format("%T %d/%m/%Y").to_string(),
        _ => String::new(),
    }
}

/// The visual vocabulary of the renderer, decoupled from the escape bytes
/// that happen to realise it.
#[derive(PartialEq, Eq, Structural, Debug, Copy, Clone)]
pub enum Style {
    HideCursor,
    ShowCursor,
    Home,
    ClearLine,
    Reverse,
    StyleOff,
    Highlight,
    ColorOff,
}

/// The escape bytes of one style element.
pub open spec fn style_seq(s: Style) -> Seq<u8> {
    match s {
        Style::HideCursor => seq![27u8, 91u8, 63u8, 50u8, 53u8, 108u8],
        Style::ShowCursor => seq![27u8, 91u8, 63u8, 50u8, 53u8, 104u8],
        Style::Home => seq![27u8, 91u8, 72u8],
        Style::ClearLine => seq![27u8, 91u8, 75u8],
        Style::Reverse => seq![27u8, 91u8, 55u8, 109u8],
        Style::StyleOff => seq![27u8, 91u8, 109u8],
        Style::Highlight => seq![27u8, 91u8, 49u8, 59u8, 57u8, 51u8, 109u8],
        Style::ColorOff => seq![27u8, 91u8, 48u8, 109u8],
    }
}

/// The escape bytes of one style element, as a vector.
pub fn style_bytes(s: Style) -> (r: Vec<u8>)
    ensures
        r@ == style_seq(s),
{
    let mut r: Vec<u8> = Vec::new();
    r.push(27);
    r.push(91);
    match s {
        Style::HideCursor => {
            r.push(63);
            r.push(50);
            r.push(53);
            r.push(108);
        },
        Style::ShowCursor => {
            r.push(63);
            r.push(50);
            r.push(53);
            r.push(104);
        },
        Style::Home => {
            r.push(72);
        },
        Style::ClearLine => {
            r.push(75);
        },
        Style::Reverse => {
            r.push(55);
            r.push(109);
        },
        Style::StyleOff => {
            r.push(109);
        },
        Style::Highlight => {
            r.push(49);
            r.push(59);
            r.push(57);
            r.push(51);
            r.push(109);
        },
        Style::ColorOff => {
            r.push(48);
            r.push(109);
        },
    }
    proof {
        assert(r@ =~= style_seq(s));
    }
    r
}

/// A carriage return and line feed.
pub open spec fn crlf() -> Seq<u8> {
    seq![13u8, 10u8]
}

/// `n` space bytes.
pub open spec fn spaces_seq(n: nat) -> Seq<u8>
    decreases n,
{
    if n == 0 {
        Seq::empty()
    } else {
        spaces_seq((n - 1) as nat).push(32u8)
    }
}

/// Appends `n` spaces.
fn append_spaces(ab: &mut AppendBuffer, n: usize)
    ensures
        final(ab).buffer@ == old(ab).buffer@ + spaces_seq(n as nat),
        final(ab).new_lines == old(ab).new_lines,
{
    let mut i: usize = 0;
    proof {
        assert(ab.buffer@ =~= ab.buffer@ + spaces_seq(0));
    }
    while i < n
        invariant
            i <= n,
            ab.buffer@ == old(ab).buffer@ + spaces_seq(i as nat),
            ab.new_lines == old(ab).new_lines,
        decreases n - i,
    {
        let one: [u8; 1] = [32u8];
        ab.append(&one);
        proof {
            assert(one@ =~= seq![32u8]);
            assert(ab.buffer@ =~= old(ab).buffer@ + spaces_seq((i + 1) as nat));
        }
        i = i + 1;
    }
}

/// The terminal sequence that moves the cursor to `(row, col)`, one-based.
pub open spec fn cursor_position_seq(row: nat, col: nat) -> Seq<u8> {
    seq![27u8, 91u8] + dec_bytes(row) + seq![59u8] + dec_bytes(col) + seq![72u8]
}

/// The escape bytes that position the terminal cursor at `(row, col)`.
pub fn cursor_position_sequence(row: usize, col: usize) -> (r: Vec<u8>)
    ensures
        r@ == cursor_position_seq(row as nat, col as nat),
{
    let mut r: Vec<u8> = Vec::new();
    r.push(27);
    r.push(91);
    let mut d = usize_to_bytes(row);
    r.append(&mut d);
    r.push(59);
    let mut d2 = usize_to_bytes(col);
    r.append(&mut d2);
    r.push(72);
    proof {
        assert(r@ =~= cursor_position_seq(row as nat, col as nat));
    }
    r
}

/// The escape byte that closes a one-step cursor movement in a direction.
pub open spec fn direction_code(direction: CursorDirections) -> u8 {
    match direction {
        CursorDirections::Up => 65u8,
        CursorDirections::Down => 66u8,
        CursorDirections::Right => 67u8,
        CursorDirections::Left => 68u8,
        _ => 0u8,
    }
}

/// The terminal sequence that moves the cursor `offset` cells in a
/// direction without any boundary bookkeeping.
pub fn naive_move_sequence(direction: CursorDirections, offset: usize) -> (r: Vec<u8>)
    requires
        direction != CursorDirections::LineBegin,
        direction != CursorDirections::LineEnd,
    ensures
        r@ == seq![27u8, 91u8] + dec_bytes(offset as nat) + seq![direction_code(direction)],
{
    let mut r: Vec<u8> = Vec::new();
    r.push(27);
    r.push(91);
    let mut d = usize_to_bytes(offset);
    r.append(&mut d);
    match direction {
        CursorDirections::Up => r.push(65),
        CursorDirections::Down => r.push(66),
        CursorDirections::Right => r.push(67),
        _ => r.push(68),
    }
    proof {
        assert(r@ =~= seq![27u8, 91u8] + dec_bytes(offset as nat) + seq![direction_code(
            direction,
        )]);
    }
    r
}

/// The bytes that blank out a status line: its prompt byte and one space for
/// every byte the previous message occupied.
pub fn clear_status_sequence(prefix: u8, len: usize) -> (r: Vec<u8>)
    ensures
        r@ == seq![prefix] + spaces_seq(len as nat),
{
    let mut ab = AppendBuffer::new();
    let one: [u8; 1] = [prefix];
    ab.append(&one);
    proof {
        assert(one@ =~= seq![prefix]);
    }
    append_spaces(&mut ab, len);
    let r = ab.buffer;
    proof {
        assert(r@ =~= seq![prefix] + spaces_seq(len as nat));
    }
    r
}

/// The line-number gutter of one screen row: the row number right-aligned
/// into one column less than the left margin, then one space.
pub open spec fn gutter_seq(file_row: nat, x_offset: int) -> Seq<u8> {
    let digits = dec_bytes(file_row);
    let w = if x_offset >= 1 {
        x_offset - 1
    } else {
        0
    };
    (if digits.len() < w {
        spaces_seq((w - digits.len()) as nat)
    } else {
        Seq::empty()
    }) + digits + seq![32u8]
}

/// Appends one row's line-number gutter.
fn append_gutter(ab: &mut AppendBuffer, file_row: usize, x_offset: usize)
    ensures
        final(ab).buffer@ == old(ab).buffer@ + gutter_seq(file_row as nat, x_offset as int),
        final(ab).new_lines == old(ab).new_lines,
{
    let digits = usize_to_bytes(file_row);
    let w = if x_offset >= 1 {
        x_offset - 1
    } else {
        0
    };
    if digits.len() < w {
        append_spaces(ab, w - digits.len());
    }
    ab.append(digits.as_slice());
    let one: [u8; 1] = [32u8];
    ab.append(&one);
    proof {
        assert(one@ =~= seq![32u8]);
        assert(ab.buffer@ =~= old(ab).buffer@ + gutter_seq(file_row as nat, x_offset as int));
    }
}

/// One document row's bytes with every highlight range that falls inside the
/// row wrapped in a highlight-on/highlight-off pair; ranges outside the row
/// or overtaken by an earlier one are passed over.
pub open spec fn row_content_seq(
    c: Seq<u8>,
    l: int,
    r: int,
    highs: Seq<(usize, usize)>,
    k: int,
    pos: int,
) -> Seq<u8>
    decreases highs.len() - k,
    when 0 <= k
{
    if k >= highs.len() {
        c.subrange(pos, r)
    } else {
        let h = highs[k];
        if l <= h.0 && h.0 <= h.1 && h.1 <= r && pos <= h.0 {
            c.subrange(pos, h.0 as int) + style_seq(Style::Highlight) + c.subrange(
                h.0 as int,
                h.1 as int,
            ) + style_seq(Style::ColorOff) + row_content_seq(c, l, r, highs, k + 1, h.1 as int)
        } else {
            row_content_seq(c, l, r, highs, k + 1, pos)
        }
    }
}

/// Appends one row's content with its highlights.
fn append_row_content(
    ab: &mut AppendBuffer,
    data: &AppendBuffer,
    l: usize,
    r: usize,
    highs: &Vec<(usize, usize)>,
)
    requires
        l <= r <= data.buffer@.len(),
    ensures
        final(ab).buffer@ == old(ab).buffer@ + row_content_seq(
            data.buffer@,
            l as int,
            r as int,
            highs@,
            0,
            l as int,
        ),
        final(ab).new_lines == old(ab).new_lines,
{
    let ghost c = data.buffer@;
    let mut pos = l;
    let mut k: usize = 0;
    while k < highs.len()
        invariant
            k <= highs@.len(),
            l <= pos <= r <= c.len(),
            c == data.buffer@,
            ab.new_lines == old(ab).new_lines,
            ab.buffer@ + row_content_seq(c, l as int, r as int, highs@, k as int, pos as int)
                == old(ab).buffer@ + row_content_seq(c, l as int, r as int, highs@, 0, l as int),
        decreases highs@.len() - k,
    {
        let h = highs[k];
        if l <= h.0 && h.0 <= h.1 && h.1 <= r && pos <= h.0 {
            ab.append(slice_subrange(data.buffer.as_slice(), pos, h.0));
            let hi = style_bytes(Style::Highlight);
            ab.append(hi.as_slice());
            ab.append(slice_subrange(data.buffer.as_slice(), h.0, h.1));
            let off = style_bytes(Style::ColorOff);
            ab.append(off.as_slice());
            pos = h.1;
        }
        k = k + 1;
    }
    ab.append(slice_subrange(data.buffer.as_slice(), pos, r));
    proof {
        assert(ab.buffer@ =~= old(ab).buffer@ + row_content_seq(
            c,
            l as int,
            r as int,
            highs@,
            0,
            l as int,
        ));
    }
}

/// One viewport row: gutter, then the document row's highlighted content or
/// the filler marker past the document's end, closed by clear-to-end-of-line
/// and a line break.
pub open spec fn row_seq(
    c: Seq<u8>,
    nl: Seq<int>,
    highs: Seq<(usize, usize)>,
    x_offset: int,
    file_row: int,
) -> Seq<u8> {
    gutter_seq(file_row as nat, x_offset) + (if file_row >= nl.len() {
        seq![126u8]
    } else {
        row_content_seq(
            c,
            row_bounds_start(nl, file_row),
            row_bounds_end(nl, file_row),
            highs,
            0,
            row_bounds_start(nl, file_row),
        )
    }) + style_seq(Style::ClearLine) + crlf()
}

/// The viewport rows from `y` up, each one `row_seq` of its document row.
pub open spec fn draw_seq(
    c: Seq<u8>,
    nl: Seq<int>,
    highs: Seq<(usize, usize)>,
    x_offset: int,
    row_offset: int,
    rows: int,
    y: int,
) -> Seq<u8>
    decreases rows - y,
    when y >= 0
{
    if y >= rows {
        Seq::empty()
    } else {
        row_seq(c, nl, highs, x_offset, row_offset + y) + draw_seq(
            c,
            nl,
            highs,
            x_offset,
            row_offset,
            rows,
            y + 1,
        )
    }
}

/// Composes the visible viewport: for each screen row the corresponding
/// document row with its highlights, or the filler marker beyond the end.
pub fn draw(
    context: &EditorContext,
    cursor: &Cursor,
    data: &AppendBuffer,
    append_buffer: &mut AppendBuffer,
)
    requires
        data.indexed(),
        cursor.row_offset + cursor.rows <= usize::MAX,
    ensures
        final(append_buffer).buffer@ == old(append_buffer).buffer@ + draw_seq(
            data.buffer@,
            data.line_starts(),
            context.highlight_register@,
            cursor.editor_configs.x_offset as int,
            cursor.row_offset as int,
            cursor.rows as int,
            0,
        ),
        final(append_buffer).new_lines == old(append_buffer).new_lines,
{
    let ghost c = data.buffer@;
    let ghost nl = data.line_starts();
    let ghost highs = context.highlight_register@;
    let ghost xo = cursor.editor_configs.x_offset as int;
    proof {
        lemma_newline_positions_props(c);
        assert(data.buffer.len() == c.len());
    }
    let mut y: usize = 0;
    while y < cursor.rows
        invariant
            y <= cursor.rows,
            cursor.row_offset + cursor.rows <= usize::MAX,
            data.indexed(),
            c == data.buffer@,
            nl == data.line_starts(),
            highs == context.highlight_register@,
            xo == cursor.editor_configs.x_offset as int,
            c.len() <= usize::MAX,
            forall|j: int|
                0 <= j < nl.len() ==> 0 <= #[trigger] nl[j] < c.len(),
            forall|i1: int, j1: int| 0 <= i1 < j1 < nl.len() ==> nl[i1] < nl[j1],
            append_buffer.new_lines == old(append_buffer).new_lines,
            append_buffer.buffer@ + draw_seq(
                c,
                nl,
                highs,
                xo,
                cursor.row_offset as int,
                cursor.rows as int,
                y as int,
            ) == old(append_buffer).buffer@ + draw_seq(
                c,
                nl,
                highs,
                xo,
                cursor.row_offset as int,
                cursor.rows as int,
                0,
            ),
        decreases cursor.rows - y,
    {
        let file_row = y + cursor.row_offset;
        append_gutter(append_buffer, file_row, cursor.editor_configs.x_offset);
        if file_row >= data.new_lines.len() {
            let one: [u8; 1] = [126u8];
            append_buffer.append(&one);
            proof {
                assert(one@ =~= seq![126u8]);
            }
        } else {
            let (index_l, index_r) = cursor.calculate_row_of_insert_indices(
                file_row,
                &data.new_lines,
            );
            proof {
                assert(nl[file_row as int] < c.len());
            }
            append_row_content(
                append_buffer,
                data,
                index_l,
                index_r,
                &context.highlight_register,
            );
        }
        let cl = style_bytes(Style::ClearLine);
        append_buffer.append(cl.as_slice());
        let two: [u8; 2] = [13u8, 10u8];
        append_buffer.append(&two);
        proof {
            assert(two@ =~= crlf());
            assert(append_buffer.buffer@ + draw_seq(
                c,
                nl,
                highs,
                xo,
                cursor.row_offset as int,
                cursor.rows as int,
                y + 1,
            ) =~= old(append_buffer).buffer@ + draw_seq(
                c,
                nl,
                highs,
                xo,
                cursor.row_offset as int,
                cursor.rows as int,
                0,
            ));
        }
        y = y + 1;
    }
}

/// The mode tag shown at the status bar's left edge.
pub open spec fn mode_tag_seq(mode: EditorModes) -> Seq<u8> {
    match mode {
        EditorModes::Insert => ("[--INSERT--]").spec_bytes(),
        EditorModes::Normal => ("[--NORMAL--]").spec_bytes(),
    }
}

/// The left-justified status text: mode tag, file name (or the untitled
/// marker), and the modified marker while unsaved edits exist.
pub open spec fn status_left_seq(mode: EditorModes, files: Seq<u8>, dirty: bool) -> Seq<u8> {
    mode_tag_seq(mode) + (if files.len() == 0 {
        ("[No Name]").spec_bytes()
    } else {
        files
    }) + (if dirty {
        ("(modified)").spec_bytes()
    } else {
        Seq::empty()
    })
}

/// The right-justified status text: current row over total rows, then the
/// rendered timestamp.
pub open spec fn status_right_seq(screen_row: nat, rows: nat, stamp: Seq<char>) -> Seq<u8> {
    seq![32u8, 91u8] + dec_bytes(screen_row) + seq![47u8] + dec_bytes(rows) + seq![93u8, 32u8]
        + vstd::utf8::encode_utf8(stamp)
}

/// The status bar: reverse video on, the left text truncated to the
/// viewport width, then either exact-fit padding and the right text or, when
/// the right text cannot fit, padding to the width alone; reverse video off
/// and a line break close it.
pub open spec fn status_bar_seq(
    mode: EditorModes,
    files: Seq<u8>,
    dirty: bool,
    screen_row: nat,
    rows: nat,
    stamp: Seq<char>,
    cols: int,
) -> Seq<u8> {
    let left = status_left_seq(mode, files, dirty);
    let lt = if left.len() > cols {
        left.subrange(0, cols)
    } else {
        left
    };
    let right = status_right_seq(screen_row, rows, stamp);
    let mid = if lt.len() + right.len() <= cols {
        spaces_seq((cols - lt.len() - right.len()) as nat) + right
    } else {
        spaces_seq((if cols >= lt.len() {
            cols - lt.len()
        } else {
            0
        }) as nat)
    };
    style_seq(Style::Reverse) + lt + mid + style_seq(Style::StyleOff) + crlf()
}

/// Emits the status bar for the current session state and timestamp text.
#[verifier::rlimit(100)]
pub fn draw_status_bar(
    context: &EditorContext,
    cursor: &Cursor,
    append_buffer: &mut AppendBuffer,
    stamp: &String,
)
    requires
        cursor.c_y + cursor.editor_configs.y_offset + 1 <= usize::MAX,
    ensures
        final(append_buffer).buffer@ == old(append_buffer).buffer@ + status_bar_seq(
            context.mode,
            context.files@,
            context.dirty,
            (cursor.c_y + cursor.editor_configs.y_offset + 1) as nat,
            cursor.rows as nat,
            stamp@,
            cursor.cols as int,
        ),
        final(append_buffer).new_lines == old(append_buffer).new_lines,
{
    let rev = style_bytes(Style::Reverse);
    append_buffer.append(rev.as_slice());
    let mut left = AppendBuffer::new();
    match context.mode {
        EditorModes::Insert => left.append_str("[--INSERT--]"),
        EditorModes::Normal => left.append_str("[--NORMAL--]"),
    }
    if context.files.len() == 0 {
        left.append_str("[No Name]");
    } else {
        left.append(context.files.as_slice());
    }
    if context.dirty {
        left.append_str("(modified)");
    }
    let mut right = AppendBuffer::new();
    let two: [u8; 2] = [32u8, 91u8];
    right.append(&two);
    let row_digits = usize_to_bytes(cursor.y() + 1);
    right.append(row_digits.as_slice());
    let one: [u8; 1] = [47u8];
    right.append(&one);
    let rows_digits = usize_to_bytes(cursor.rows);
    right.append(rows_digits.as_slice());
    let two2: [u8; 2] = [93u8, 32u8];
    right.append(&two2);
    right.append_str(stamp.as_str());
    proof {
        assert(two@ =~= seq![32u8, 91u8]);
        assert(one@ =~= seq![47u8]);
        assert(two2@ =~= seq![93u8, 32u8]);
        assert(left.buffer@ =~= status_left_seq(context.mode, context.files@, context.dirty));
        assert(right.buffer@ =~= status_right_seq(
            (cursor.c_y + cursor.editor_configs.y_offset + 1) as nat,
            cursor.rows as nat,
            stamp@,
        ));
    }
    let cols = cursor.cols;
    let lt_len = if left.buffer.len() > cols {
        cols
    } else {
        left.buffer.len()
    };
    append_buffer.append(slice_subrange(left.buffer.as_slice(), 0, lt_len));
    if right.buffer.len() <= cols - lt_len {
        append_spaces(append_buffer, cols - lt_len - right.buffer.len());
        append_buffer.append(right.buffer.as_slice());
    } else {
        append_spaces(append_buffer, cols - lt_len);
    }
    let off = style_bytes(Style::StyleOff);
    append_buffer.append(off.as_slice());
    let nlb: [u8; 2] = [13u8, 10u8];
    append_buffer.append(&nlb);
    proof {
        assert(nlb@ =~= crlf());
        assert(append_buffer.buffer@ =~= old(append_buffer).buffer@ + status_bar_seq(
            context.mode,
            context.files@,
            context.dirty,
            (cursor.c_y + cursor.editor_configs.y_offset + 1) as nat,
            cursor.rows as nat,
            stamp@,
            cursor.cols as int,
        ));
    }
}

/// An integer sum clamped to what a machine word can hold.
pub open spec fn sat_add_usize(a: int, b: int) -> int {
    if a + b <= usize::MAX {
        a + b
    } else {
        usize::MAX as int
    }
}

/// Where the terminal cursor is parked after a frame: at the active search
/// match while one is highlighted in Normal mode, else at the edit cursor,
/// both adjusted by scroll and margins.
pub open spec fn position_seq(ctx: EditorContext, cur: Cursor, nl: Seq<int>) -> Seq<u8> {
    if ctx.highlight_register@.len() > 0 && ctx.mode == EditorModes::Normal {
        let p = screen_pos_of(nl, ctx.highlight_register@[ctx.h_reg as int].0 as int);
        let row = sat_add_usize(
            if p.1 >= cur.row_offset {
                p.1 - cur.row_offset
            } else {
                0
            },
            cur.editor_configs.y_offset as int,
        );
        let col = sat_add_usize(p.0, cur.editor_configs.x_offset as int);
        cursor_position_seq(row as nat, col as nat)
    } else {
        let row = (if cur.c_y >= cur.row_offset {
            cur.c_y - cur.row_offset
        } else {
            0
        }) + cur.editor_configs.y_offset + 1;
        let col = cur.c_x + cur.editor_configs.x_offset + 1;
        cursor_position_seq(row as nat, col as nat)
    }
}

/// The scroll offset after one frame's re-computation.
pub open spec fn scrolled_offset(cur: Cursor) -> int {
    if cur.c_y < cur.row_offset {
        cur.c_y as int
    } else if cur.c_y >= cur.row_offset + cur.rows {
        cur.c_y - cur.rows + 1
    } else {
        cur.row_offset as int
    }
}

/// One full frame: hide the cursor, home, the viewport rows, the status and
/// message bars, the terminal-cursor position, show the cursor.
pub open spec fn render_seq(
    ctx: EditorContext,
    cur: Cursor,
    c: Seq<u8>,
    nl: Seq<int>,
    stamp: Seq<char>,
) -> Seq<u8> {
    style_seq(Style::HideCursor) + style_seq(Style::Home) + draw_seq(
        c,
        nl,
        ctx.highlight_register@,
        cur.editor_configs.x_offset as int,
        cur.row_offset as int,
        cur.rows as int,
        0,
    ) + status_bar_seq(
        ctx.mode,
        ctx.files@,
        ctx.dirty,
        (cur.c_y + cur.editor_configs.y_offset + 1) as nat,
        cur.rows as nat,
        stamp,
        cur.cols as int,
    ) + message_bar_seq(ctx.status_message@) + position_seq(ctx, cur, nl) + style_seq(
        Style::ShowCursor,
    )
}

/// Recomputes the scroll offset, then composes the frame's bytes for the
/// surrounding program to write out in one piece.
pub fn render(context: &EditorContext, cursor: &mut Cursor, data: &AppendBuffer) -> (r: Vec<u8>)
    requires
        data.indexed(),
        context.highlight_register@.len() > 0 ==> context.h_reg
            < context.highlight_register@.len(),
        old(cursor).c_y + old(cursor).rows + 1 <= usize::MAX,
        old(cursor).row_offset + old(cursor).rows <= usize::MAX,
        old(cursor).c_y + old(cursor).editor_configs.y_offset + 1 <= usize::MAX,
        old(cursor).c_x + old(cursor).editor_configs.x_offset + 1 <= usize::MAX,
    ensures
        *final(cursor) == (Cursor {
            row_offset: scrolled_offset(*old(cursor)) as usize,
            ..*old(cursor)
        }),
        r@ == render_seq(
            *context,
            *final(cursor),
            data.buffer@,
            data.line_starts(),
            timestamp_text_of(context.status_message_time),
        ),
{
    cursor.calculate_row_offset();
    let mut ab = AppendBuffer::new();
    let hide = style_bytes(Style::HideCursor);
    ab.append(hide.as_slice());
    let home = style_bytes(Style::Home);
    ab.append(home.as_slice());
    draw(context, cursor, data, &mut ab);
    let stamp = format_timestamp(context.status_message_time);
    draw_status_bar(context, cursor, &mut ab, &stamp);
    draw_message_bar(context, &mut ab);
    if context.highlight_register.len() > 0 && context.mode == EditorModes::Normal {
        let (i_x, i_y) = file_index_to_cursor(context, data);
        let rowbase = if i_y >= cursor.row_offset {
            i_y - cursor.row_offset
        } else {
            0
        };
        let row = match rowbase.checked_add(cursor.editor_configs.y_offset) {
            Some(v) => v,
            _ => usize::MAX,
        };
        let col = match i_x.checked_add(cursor.editor_configs.x_offset) {
            Some(v) => v,
            _ => usize::MAX,
        };
        let pos = cursor_position_sequence(row, col);
        ab.append(pos.as_slice());
    } else {
        let rowbase = if cursor.c_y >= cursor.row_offset {
            cursor.c_y - cursor.row_offset
        } else {
            0
        };
        let row = rowbase + cursor.editor_configs.y_offset + 1;
        let col = cursor.c_x + cursor.editor_configs.x_offset + 1;
        let pos = cursor_position_sequence(row, col);
        ab.append(pos.as_slice());
    }
    let show = style_bytes(Style::ShowCursor);
    ab.append(show.as_slice());
    proof {
        assert(ab.buffer@ =~= render_seq(
            *context,
            *cursor,
            data.buffer@,
            data.line_starts(),
            timestamp_text_of(context.status_message_time),
        ));
    }
    ab.buffer
}

/// The message bar: clear the line, then the feedback message's bytes.
pub open spec fn message_bar_seq(status_message: Seq<char>) -> Seq<u8> {
    style_seq(Style::ClearLine) + vstd::utf8::encode_utf8(status_message)
}

/// Emits the message bar showing the status message.
pub fn draw_message_bar(context: &EditorContext, append_buffer: &mut AppendBuffer)
    ensures
        final(append_buffer).buffer@ == old(append_buffer).buffer@ + message_bar_seq(
            context.status_message@,
        ),
        final(append_buffer).new_lines == old(append_buffer).new_lines,
{
    let cl = style_bytes(Style::ClearLine);
    append_buffer.append(cl.as_slice());
    append_buffer.append_str(context.status_message.as_str());
    proof {
        assert(append_buffer.buffer@ =~= old(append_buffer).buffer@ + message_bar_seq(
            context.status_message@,
        ));
    }
}

} // verus!
