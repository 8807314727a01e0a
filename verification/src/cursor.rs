use vstd::prelude::*;

use crate::buffer::ascending;
use crate::buffer::positions_wf;
use crate::buffer::row_bounds_end;
use crate::buffer::row_bounds_start;
use crate::buffer::row_end_abs;
use crate::buffer::row_len;
use crate::buffer::row_start_abs;
use crate::constants::CursorDirections;

verus! {

/// Fixed screen margins: columns reserved on the left (line-number gutter)
/// and rows reserved at the top.
#[derive(Debug, PartialEq, Eq, Structural, Copy, Clone)]
pub struct EditorConfigs {
    pub x_offset: usize,
    pub y_offset: usize,
}

impl Default for EditorConfigs {
    /// No margins.
    fn default() -> (r: Self)
        ensures
            r.x_offset == 0,
            r.y_offset == 0,
    {
        EditorConfigs { x_offset: 0, y_offset: 0 }
    }
}

/// A line index as mathematical integers.
pub open spec fn line_index_view(nl: Seq<usize>) -> Seq<int> {
    nl.map_values(|p: usize| p as int)
}

/// Every position in the index leaves room for the `+ 1` of a row start.
pub open spec fn index_fits(nl: Seq<int>) -> bool {
    forall|k: int| 0 <= k < nl.len() ==> 0 <= #[trigger] nl[k] < usize::MAX
}

/// Where a movement sends the cursor, before the uniform column re-clamp:
/// the `(column, row)` pair that `move_cursor` steers to.
pub open spec fn move_target(
    nl: Seq<int>,
    direction: CursorDirections,
    offset: int,
    x: int,
    y: int,
) -> (int, int) {
    match direction {
        CursorDirections::LineBegin => (0, y),
        CursorDirections::LineEnd => (row_len(nl, y), y),
        CursorDirections::Left => if x != 0 {
            ((if x >= offset {
                x - offset
            } else {
                0
            }), y)
        } else if y > 0 {
            let y2 = if y >= offset {
                y - offset
            } else {
                0
            };
            let l2 = row_len(nl, y2);
            ((if offset > l2 {
                0
            } else {
                l2 - offset + 1
            }), y2)
        } else {
            (x, y)
        },
        CursorDirections::Down => if y + offset < nl.len() {
            (x, y + offset)
        } else if nl.len() > 0 {
            (x, nl.len() - 1)
        } else {
            (x, 0)
        },
        CursorDirections::Up => if y >= offset {
            (x, y - offset)
        } else {
            (x, 0)
        },
        CursorDirections::Right => {
            let l = row_len(nl, y);
            if l != 0 && x + offset <= l {
                (x + offset, y)
            } else if l != 0 && y + offset < nl.len() {
                (0, y + offset)
            } else {
                (x, y)
            }
        },
    }
}

/// The uniform post-move clamp: the column never exceeds the addressed
/// row's last valid position, and is `0` on a row without content.
pub open spec fn clamp_col(nl: Seq<int>, y: int, x: int) -> int {
    let l = row_len(nl, y);
    if l <= 0 {
        0
    } else if x > l - 1 {
        l - 1
    } else {
        x
    }
}

/// The cursor addresses a position inside the document: its row exists (the
/// unterminated row after the last newline counts) and its byte offset does
/// not run past the addressed row's end.
pub open spec fn cursor_in_doc(c: Cursor, nl: Seq<int>, content_len: int) -> bool {
    &&& c.c_y <= nl.len()
    &&& row_start_abs(nl, c.c_y as int) + c.c_x <= row_end_abs(nl, content_len, c.c_y as int)
}

/// A clamped column keeps the cursor inside the addressed row.
pub proof fn lemma_clamp_in_doc(nl: Seq<int>, content_len: int, y: int, x: int)
    requires
        positions_wf(nl, content_len),
        0 <= content_len,
        0 <= y <= nl.len(),
        0 <= x,
    ensures
        row_start_abs(nl, y) + clamp_col(nl, y, x) <= row_end_abs(nl, content_len, y),
{
    if y < nl.len() {
        if y > 0 {
            assert(nl[y - 1] < nl[y]);
        }
    }
}

/// A movement target never leaves the document's rows, and with the clamp
/// the cursor stays inside the addressed row.
pub proof fn lemma_move_in_doc(
    nl: Seq<int>,
    content_len: int,
    cur: Cursor,
    direction: CursorDirections,
    offset: int,
)
    requires
        positions_wf(nl, content_len),
        0 <= content_len,
        cur.c_y <= nl.len(),
        offset >= 0,
    ensures
        ({
            let t = move_target(nl, direction, offset, cur.c_x as int, cur.c_y as int);
            &&& 0 <= t.1 <= nl.len()
            &&& row_start_abs(nl, t.1) + clamp_col(nl, t.1, t.0) <= row_end_abs(
                nl,
                content_len,
                t.1,
            )
        }),
{
    let t = move_target(nl, direction, offset, cur.c_x as int, cur.c_y as int);
    assert forall|y: int| 0 <= y implies row_len(nl, y) >= 0 by {
        if 0 < y < nl.len() {
            assert(nl[y - 1] < nl[y]);
        }
    }
    assert(0 <= t.1 <= nl.len());
    assert(t.0 >= 0);
    lemma_clamp_in_doc(nl, content_len, t.1, t.0);
}

/// Display position, viewport geometry and vertical scroll state.
#[derive(Debug, PartialEq, Eq, Structural, Copy, Clone)]
pub struct Cursor {
    pub c_x: usize,
    pub c_y: usize,
    pub rows: usize,
    pub cols: usize,
    pub row_offset: usize,
    pub editor_configs: EditorConfigs,
}

impl Cursor {
    pub fn new() -> (r: Self)
        ensures
            r.c_x == 0,
            r.c_y == 0,
            r.rows == 0,
            r.cols == 0,
            r.row_offset == 0,
            r.editor_configs.x_offset == 0,
            r.editor_configs.y_offset == 0,
    {
        Self {
            c_x: 0,
            c_y: 0,
            rows: 0,
            cols: 0,
            row_offset: 0,
            editor_configs: EditorConfigs::default(),
        }
    }

    /// Resets position and geometry; the scroll offset is kept.
    pub fn clear(&mut self)
        ensures
            final(self).c_x == 0,
            final(self).c_y == 0,
            final(self).rows == 0,
            final(self).cols == 0,
            final(self).row_offset == old(self).row_offset,
            final(self).editor_configs.x_offset == 0,
            final(self).editor_configs.y_offset == 0,
    {
        self.c_x = 0;
        self.c_y = 0;
        self.rows = 0;
        self.cols = 0;
        self.editor_configs = EditorConfigs::default();
    }

    /// Screen column: display column plus the left margin.
    pub fn x(&self) -> (r: usize)
        requires
            self.c_x + self.editor_configs.x_offset <= usize::MAX,
        ensures
            r == self.c_x + self.editor_configs.x_offset,
    {
        self.c_x + self.editor_configs.x_offset
    }

    /// Screen row: display row plus the top margin.
    pub fn y(&self) -> (r: usize)
        requires
            self.c_y + self.editor_configs.y_offset <= usize::MAX,
        ensures
            r == self.c_y + self.editor_configs.y_offset,
    {
        self.c_y + self.editor_configs.y_offset
    }

    /// Display column without margins.
    pub fn absx(&self) -> (r: usize)
        ensures
            r == self.c_x,
    {
        self.c_x
    }

    /// Display row without margins.
    pub fn absy(&self) -> (r: usize)
        ensures
            r == self.c_y,
    {
        self.c_y
    }

    pub fn up_x(&mut self, d: usize)
        requires
            old(self).c_x + d <= usize::MAX,
        ensures
            *final(self) == (Cursor { c_x: (old(self).c_x + d) as usize, ..*old(self) }),
    {
        self.c_x = self.c_x + d;
    }

    pub fn up_y(&mut self, d: usize)
        requires
            old(self).c_y + d <= usize::MAX,
        ensures
            *final(self) == (Cursor { c_y: (old(self).c_y + d) as usize, ..*old(self) }),
    {
        self.c_y = self.c_y + d;
    }

    pub fn set_x(&mut self, d: usize)
        ensures
            *final(self) == (Cursor { c_x: d, ..*old(self) }),
    {
        self.c_x = d;
    }

    pub fn set_y(&mut self, d: usize)
        ensures
            *final(self) == (Cursor { c_y: d, ..*old(self) }),
    {
        self.c_y = d;
    }

    pub fn rows(&mut self, d: usize)
        ensures
            *final(self) == (Cursor { rows: d, ..*old(self) }),
    {
        self.rows = d;
    }

    pub fn cols(&mut self, d: usize)
        ensures
            *final(self) == (Cursor { cols: d, ..*old(self) }),
    {
        self.cols = d;
    }

    /// Scrolls just enough to bring the cursor's row into the viewport.
    pub fn calculate_row_offset(&mut self)
        requires
            old(self).rows > 0 || old(self).c_y < usize::MAX,
        ensures
            final(self).row_offset == (if old(self).c_y < old(self).row_offset {
                old(self).c_y as int
            } else if old(self).c_y >= old(self).row_offset + old(self).rows {
                old(self).c_y - old(self).rows + 1
            } else {
                old(self).row_offset as int
            }),
            *final(self) == (Cursor { row_offset: final(self).row_offset, ..*old(self) }),
    {
        if self.c_y < self.row_offset {
            self.row_offset = self.c_y;
        } else if self.c_y >= self.rows && self.c_y - self.rows >= self.row_offset {
            self.row_offset = self.c_y - self.rows + 1;
        } else if self.rows == 0 {
            self.row_offset = self.c_y + 1;
        }
    }

    /// The absolute byte offset addressed by display position `(x, y)`.
    pub fn calculate_file_index(&self, new_lines: &Vec<usize>, x: usize, y: usize) -> (r: usize)
        requires
            index_fits(line_index_view(new_lines@)),
            ascending(line_index_view(new_lines@)),
            row_start_abs(line_index_view(new_lines@), y as int) + x <= usize::MAX,
        ensures
            r == row_start_abs(line_index_view(new_lines@), y as int) + x,
    {
        let (il, _ir) = self.calculate_row_of_insert_indices(y, new_lines);
        if y >= new_lines.len() && new_lines.len() > 0 {
            let last = new_lines[new_lines.len() - 1];
            proof {
                assert(line_index_view(new_lines@)[new_lines@.len() - 1] == new_lines@[new_lines@.len() - 1] as int);
            }
            last + 1 + x
        } else {
            il + x
        }
    }

    /// The byte bounds `(start, end)` of row `i`, `(0, 0)` when the row is
    /// not in the index; `end` is the position of the row's newline.
    pub fn calculate_row_of_insert_indices(&self, i: usize, new_lines: &Vec<usize>) -> (r: (
        usize,
        usize,
    ))
        requires
            index_fits(line_index_view(new_lines@)),
            ascending(line_index_view(new_lines@)),
        ensures
            r.0 == row_bounds_start(line_index_view(new_lines@), i as int),
            r.1 == row_bounds_end(line_index_view(new_lines@), i as int),
            r.0 <= r.1,
    {
        proof {
            let nl = line_index_view(new_lines@);
            if (i as int) < nl.len() {
                assert(nl[i as int] == new_lines@[i as int] as int);
                if i > 0 {
                    assert(nl[i - 1] == new_lines@[i - 1] as int);
                    assert(nl[i - 1] < nl[i as int]);
                }
            }
        }
        if i >= new_lines.len() {
            return (0, 0);
        }
        let index_r = new_lines[i];
        let mut index_l: usize = 0;
        if i != 0 {
            index_l = new_lines[i - 1] + 1;
        }
        (index_l, index_r)
    }

    /// `move(direction, offset)` over the given line index.  The target
    /// position follows `move_target`; afterwards the column is re-clamped
    /// uniformly (`clamp_col`), the single governing post-condition that
    /// keeps the cursor inside valid row content.
    pub fn move_cursor(
        &mut self,
        new_lines: &Vec<usize>,
        direction: CursorDirections,
        offset: usize,
    ) -> (r: Result<(), ()>)
        requires
            index_fits(line_index_view(new_lines@)),
            ascending(line_index_view(new_lines@)),
        ensures
            r == Ok::<(), ()>(()),
            ({
                let nl = line_index_view(new_lines@);
                let t = move_target(
                    nl,
                    direction,
                    offset as int,
                    old(self).c_x as int,
                    old(self).c_y as int,
                );
                &&& final(self).c_y == t.1
                &&& final(self).c_x == clamp_col(nl, t.1, t.0)
            }),
            *final(self) == (Cursor { c_x: final(self).c_x, c_y: final(self).c_y, ..*old(self) }),
            // cursor column invariant: after any move the column is at most
            // max(0, rowLength - 1) for the row now addressed
            row_len(line_index_view(new_lines@), final(self).c_y as int) <= 0 ==> final(self).c_x
                == 0,
            row_len(line_index_view(new_lines@), final(self).c_y as int) > 0 ==> final(self).c_x
                < row_len(line_index_view(new_lines@), final(self).c_y as int),
    {
        let (l0, r0) = self.calculate_row_of_insert_indices(self.c_y, new_lines);
        let row_insert_size = r0 - l0;
        let n = new_lines.len();
        match direction {
            CursorDirections::LineBegin => {
                self.c_x = 0;
            },
            CursorDirections::LineEnd => {
                self.c_x = row_insert_size;
            },
            CursorDirections::Left => {
                if self.c_x != 0 {
                    self.c_x = if self.c_x >= offset {
                        self.c_x - offset
                    } else {
                        0
                    };
                } else if self.c_y > 0 {
                    self.c_y = if self.c_y >= offset {
                        self.c_y - offset
                    } else {
                        0
                    };
                    let (l1, r1) = self.calculate_row_of_insert_indices(self.c_y, new_lines);
                    let rs = r1 - l1;
                    self.c_x = if offset > rs {
                        0
                    } else {
                        rs - offset + 1
                    };
                }
            },
            CursorDirections::Down => {
                if offset < n && self.c_y < n - offset {
                    self.c_y = self.c_y + offset;
                } else if n > 0 {
                    self.c_y = n - 1;
                } else {
                    self.c_y = 0;
                }
            },
            CursorDirections::Up => {
                if self.c_y >= offset {
                    self.c_y = self.c_y - offset;
                } else {
                    self.c_y = 0;
                }
            },
            CursorDirections::Right => {
                if row_insert_size != 0 && offset <= row_insert_size && self.c_x
                    <= row_insert_size - offset {
                    self.c_x = self.c_x + offset;
                } else if row_insert_size != 0 && offset < n && self.c_y < n - offset {
                    self.c_y = self.c_y + offset;
                    self.c_x = 0;
                }
            },
        }
        let (l2, r2) = self.calculate_row_of_insert_indices(self.c_y, new_lines);
        let len2 = r2 - l2;
        if len2 == 0 {
            self.c_x = 0;
        } else if self.c_x > len2 - 1 {
            self.c_x = len2 - 1;
        }
        Ok(())
    }

    /// Re-clamps the cursor into the given line index after the document
    /// changed under it: the row is pulled back to the index's end and the
    /// column re-clamped uniformly.
    pub fn clamp_to(&mut self, new_lines: &Vec<usize>)
        requires
            index_fits(line_index_view(new_lines@)),
            ascending(line_index_view(new_lines@)),
        ensures
            final(self).c_y == (if old(self).c_y <= new_lines@.len() {
                old(self).c_y as int
            } else {
                new_lines@.len() as int
            }),
            final(self).c_x == clamp_col(
                line_index_view(new_lines@),
                final(self).c_y as int,
                old(self).c_x as int,
            ),
            *final(self) == (Cursor { c_x: final(self).c_x, c_y: final(self).c_y, ..*old(self) }),
    {
        if self.c_y > new_lines.len() {
            self.c_y = new_lines.len();
        }
        let (l, r) = self.calculate_row_of_insert_indices(self.c_y, new_lines);
        let len = r - l;
        if len == 0 {
            self.c_x = 0;
        } else if self.c_x > len - 1 {
            self.c_x = len - 1;
        }
    }

    /// Clamps a coordinate to the viewport: to `cols` when `mode` is false,
    /// to `rows` when `mode` is true.
    pub fn cursor_limits(&self, t: usize, mode: bool) -> (r: usize)
        ensures
            !mode ==> r == (if t > self.cols {
                self.cols as int
            } else {
                t as int
            }),
            mode ==> r == (if t > self.rows {
                self.rows as int
            } else {
                t as int
            }),
    {
        match mode {
            false => {
                if t > self.cols {
                    self.cols
                } else {
                    t
                }
            },
            true => {
                if t > self.rows {
                    self.rows
                } else {
                    t
                }
            },
        }
    }
}

} // verus!
