use vstd::prelude::*;

use crate::buffer::AppendBuffer;
use crate::buffer::all_matches;
use crate::buffer::lemma_newline_positions_props;
use crate::buffer::row_start_abs;
use crate::constants::CursorDirections;
use crate::constants::EditorHealth;
use crate::constants::EditorModes;
use crate::constants::Keys;
use crate::cursor::Cursor;
use crate::cursor::EditorConfigs;
use crate::cursor::clamp_col;
use crate::cursor::cursor_in_doc;
use crate::cursor::move_target;
use crate::text::dec_chars;
use crate::text::usize_to_string;

verus! {

use vstd::string::StringSliceAdditionalSpecFns;
use vstd::string::StrSliceExecFns;
use vstd::string::StringExecFns;

/// The sub-state of the mode state machine: what the next key byte is
/// dispatched to.  Command-line entry, search entry, the pending delete
/// operator and the pending repeat count are explicit sub-states entered
/// from Normal mode; each returns to `Base`.
#[derive(PartialEq, Eq, Structural, Debug, Copy, Clone)]
pub enum SubMode {
    Base,
    Command,
    Search,
    DeletePending,
    CountPending,
}

/// What the surrounding program must do after a key was handled: nothing,
/// write the document's bytes to a file, or read a file's bytes in and hand
/// them to `open`.
#[derive(Debug)]
pub enum EditorAction {
    Idle,
    Save(Vec<u8>),
    SaveAndQuit(Vec<u8>),
    Load(Vec<u8>),
}

/// Session state: mode, health, user feedback, the search highlights and
/// registers, the dirty flag and the open file's name.
pub struct EditorContext {
    pub mode: EditorModes,
    pub state: EditorHealth,
    pub status_message: String,
    pub status_message_time: u64,
    pub highlight_register: Vec<(usize, usize)>,
    pub h_reg: usize,
    pub line_reg: usize,
    pub dirty: bool,
    pub files: Vec<u8>,
}

/// Highlight ranges are ordered left to right, non-overlapping, each with a
/// well-formed span.
pub open spec fn highlights_wf(hr: Seq<(usize, usize)>) -> bool {
    &&& forall|k: int| 0 <= k < hr.len() ==> (#[trigger] hr[k]).0 <= hr[k].1
    &&& forall|k: int| 0 <= k < hr.len() - 1 ==> (#[trigger] hr[k]).1 <= hr[k + 1].0
}

/// The matches of `q` in `c` as `(start, end)` pairs, left to right.
pub open spec fn match_pairs(c: Seq<u8>, q: Seq<u8>) -> Seq<(usize, usize)> {
    all_matches(c, q).map_values(|m: int| (m as usize, (m + q.len()) as usize))
}

/// Greedy left-to-right filter that keeps a match only when it starts at or
/// after the previously kept match's end.
pub open spec fn filter_overlaps(ms: Seq<(usize, usize)>, i: int, prev_end: int) -> Seq<
    (usize, usize),
>
    decreases ms.len() - i,
    when 0 <= i
{
    if i >= ms.len() {
        Seq::empty()
    } else if ms[i].0 >= prev_end {
        seq![ms[i]] + filter_overlaps(ms, i + 1, ms[i].1 as int)
    } else {
        filter_overlaps(ms, i + 1, prev_end)
    }
}

/// The kept matches are well formed and all start at or after `prev_end`.
pub proof fn lemma_filter_overlaps_wf(ms: Seq<(usize, usize)>, i: int, prev_end: int)
    requires
        0 <= i,
        forall|k: int| 0 <= k < ms.len() ==> (#[trigger] ms[k]).0 <= ms[k].1,
    ensures
        highlights_wf(filter_overlaps(ms, i, prev_end)),
        forall|k: int|
            0 <= k < filter_overlaps(ms, i, prev_end).len() ==> (#[trigger] filter_overlaps(
                ms,
                i,
                prev_end,
            )[k]).0 >= prev_end,
    decreases ms.len() - i,
{
    if i < ms.len() {
        if ms[i].0 >= prev_end {
            lemma_filter_overlaps_wf(ms, i + 1, ms[i].1 as int);
        } else {
            lemma_filter_overlaps_wf(ms, i + 1, prev_end);
        }
    }
}

/// What a search leaves in the highlight registry: an empty query yields an
/// empty range set, any other query its non-overlapping matches in order.
pub open spec fn search_ranges(c: Seq<u8>, q: Seq<u8>) -> Seq<(usize, usize)> {
    if q.len() == 0 {
        Seq::empty()
    } else {
        filter_overlaps(match_pairs(c, q), 0, 0)
    }
}

/// The single owner of the editing core: document, cursor, session state and
/// the sub-mode registers.
pub struct Editor {
    pub cursor: Cursor,
    pub context: EditorContext,
    pub editor_configs: EditorConfigs,
    pub data: AppendBuffer,
    pub sub_mode: SubMode,
    pub cmd_reg: Vec<u8>,
    pub count_reg: usize,
}

/// What `open` establishes: the named file's bytes are the document, the
/// index is rebuilt, the cursor returns to the origin, and the rest of the
/// session is kept.
pub open spec fn load_result(pre: Editor, post: Editor, path: Seq<u8>, content: Seq<u8>) -> bool {
    &&& post.data.buffer@ == content
    &&& post.data.indexed()
    &&& post.context.files@ == path
    &&& post.cursor == (Cursor { c_x: 0, c_y: 0, row_offset: 0, ..pre.cursor })
    &&& post.context == (EditorContext {
        files: post.context.files,
        ..pre.context
    })
    &&& post.editor_configs == pre.editor_configs
    &&& post.sub_mode == pre.sub_mode
    &&& post.cmd_reg == pre.cmd_reg
    &&& post.count_reg == pre.count_reg
}

/// The bytes a save writes out: the document content, verbatim.
pub open spec fn saved_bytes(e: Editor) -> Seq<u8> {
    e.data.buffer@
}

/// Round trip: loading a file and saving without edits writes back exactly
/// the bytes that were loaded.
pub proof fn lemma_load_save_round_trip(pre: Editor, post: Editor, path: Seq<u8>, content: Seq<u8>)
    requires
        load_result(pre, post, path, content),
    ensures
        saved_bytes(post) == content,
{
}

impl Editor {
    /// The line index of the document, as integers.
    pub open spec fn nl(&self) -> Seq<int> {
        self.data.line_starts()
    }

    /// Session well-formedness: the index matches the content, the cursor
    /// addresses a position inside the document, and the highlight registry
    /// is ordered with its cursor in range.
    pub open spec fn wf(&self) -> bool {
        &&& self.data.indexed()
        &&& cursor_in_doc(self.cursor, self.nl(), self.data.buffer@.len() as int)
        &&& highlights_wf(self.context.highlight_register@)
        &&& (self.context.highlight_register@.len() == 0 ==> self.context.h_reg == 0)
        &&& (self.context.highlight_register@.len() > 0 ==> self.context.h_reg
            < self.context.highlight_register@.len())
    }

    /// A fresh session: Normal mode, healthy, empty untitled document.
    pub fn new() -> (r: Editor)
        ensures
            r.wf(),
            r.context.mode == EditorModes::Normal,
            r.context.state == EditorHealth::Healthy,
            r.context.status_message@ == Seq::<char>::empty(),
            r.context.status_message_time == 0,
            r.context.highlight_register@ == Seq::<(usize, usize)>::empty(),
            r.context.h_reg == 0,
            r.context.line_reg == 0,
            r.context.dirty == false,
            r.context.files@ == Seq::<u8>::empty(),
            r.data.buffer@ == Seq::<u8>::empty(),
            r.data.indexed(),
            r.cursor.c_x == 0 && r.cursor.c_y == 0 && r.cursor.row_offset == 0,
            r.sub_mode == SubMode::Base,
            r.cmd_reg@ == Seq::<u8>::empty(),
            r.count_reg == 0,
    {
        let ec = EditorContext {
            mode: EditorModes::Normal,
            state: EditorHealth::Healthy,
            status_message: String::new(),
            status_message_time: 0,
            highlight_register: Vec::new(),
            h_reg: 0,
            line_reg: 0,
            dirty: false,
            files: Vec::new(),
        };
        Editor {
            cursor: Cursor::new(),
            context: ec,
            editor_configs: EditorConfigs::default(),
            data: AppendBuffer::new(),
            sub_mode: SubMode::Base,
            cmd_reg: Vec::new(),
            count_reg: 0,
        }
    }

    /// Takes the usable viewport size: two rows are reserved for the status
    /// and message bars, and the session's margins are handed to the cursor.
    pub fn init_editor(&mut self, rows: usize, cols: usize)
        requires
            old(self).wf(),
        ensures
            final(self).wf(),
            final(self).cursor == (Cursor {
                c_x: 0,
                c_y: 0,
                rows: (if rows >= 2 {
                    rows - 2
                } else {
                    0
                }) as usize,
                cols: cols,
                row_offset: old(self).cursor.row_offset,
                editor_configs: old(self).editor_configs,
            }),
            *final(self) == (Editor { cursor: final(self).cursor, ..*old(self) }),
    {
        self.cursor.clear();
        self.cursor.rows(if rows >= 2 {
            rows - 2
        } else {
            0
        });
        self.cursor.cols(cols);
        self.cursor.editor_configs = self.editor_configs;
    }

    /// Replaces the document with the bytes of the named file.
    pub fn open(&mut self, input_file: &str, content: Vec<u8>)
        requires
            old(self).wf(),
        ensures
            final(self).wf(),
            load_result(*old(self), *final(self), input_file.spec_bytes(), content@),
    {
        self.context.files = input_file.as_bytes_vec();
        self.data.buffer = content;
        self.data.update_buffers();
        self.cursor.set_x(0);
        self.cursor.set_y(0);
        self.cursor.row_offset = 0;
    }

    /// Switches the editing mode.
    pub fn change_mode(&mut self, m: EditorModes) -> (r: Option<EditorHealth>)
        ensures
            r == Some(EditorHealth::Healthy),
            final(self).context == (EditorContext { mode: m, ..old(self).context }),
            *final(self) == (Editor { context: final(self).context, ..*old(self) }),
    {
        self.context.mode = m;
        Some(EditorHealth::Healthy)
    }

    /// Replaces the status-bar feedback line.
    pub fn set_status_message(&mut self, ins: &str)
        ensures
            final(self).context == (EditorContext {
                status_message: final(self).context.status_message,
                ..old(self).context
            }),
            final(self).context.status_message@ == ins@,
            *final(self) == (Editor { context: final(self).context, ..*old(self) }),
    {
        self.context.status_message = ins.to_owned();
    }

    /// Records the outcome the surrounding program reports for a save: on
    /// success the dirty flag clears and the byte count is shown, on failure
    /// the failure is shown and the session state is kept.
    pub fn report_save(&mut self, ok: bool, written: usize)
        ensures
            final(self).context == (EditorContext {
                status_message: final(self).context.status_message,
                dirty: final(self).context.dirty,
                ..old(self).context
            }),
            *final(self) == (Editor { context: final(self).context, ..*old(self) }),
            ok ==> final(self).context.dirty == false && final(self).context.status_message@
                == dec_chars(written as nat) + " B written"@,
            !ok ==> final(self).context.dirty == old(self).context.dirty
                && final(self).context.status_message@ == "Cannot save to file"@,
    {
        if ok {
            let mut s = usize_to_string(written);
            s.append(" B written");
            self.context.status_message = s;
            self.context.dirty = false;
        } else {
            self.context.status_message = "Cannot save to file".to_owned();
        }
    }

    /// Scans the document for the query and stores the matches, post-filtered
    /// to be non-overlapping, as the highlight ranges; the match cursor
    /// returns to the first match.  An empty query yields an empty range
    /// set, not an error.
    pub fn find_in_file(&mut self, word: &[u8])
        requires
            old(self).wf(),
        ensures
            final(self).wf(),
            final(self).context.highlight_register@ == search_ranges(
                old(self).data.buffer@,
                word@,
            ),
            final(self).context == (EditorContext {
                highlight_register: final(self).context.highlight_register,
                h_reg: 0,
                ..old(self).context
            }),
            *final(self) == (Editor { context: final(self).context, ..*old(self) }),
    {
        if word.len() == 0 {
            self.context.highlight_register = Vec::new();
            self.context.h_reg = 0;
            proof {
                assert(final(self).context.highlight_register@ =~= search_ranges(
                    old(self).data.buffer@,
                    word@,
                ));
            }
            return ;
        }
        let found = self.data.find_bytes(word);
        proof {
            let pairs = match_pairs(self.data.buffer@, word@);
            let starts = all_matches(self.data.buffer@, word@);
            assert(found@.len() == pairs.len());
            assert forall|k: int| 0 <= k < found@.len() implies found@[k] == pairs[k] by {
                assert(found@.map_values(|m: (usize, usize)| m.0 as int)[k] == starts[k]);
                assert(found@[k].0 as int == starts[k]);
                assert(found@[k].1 == found@[k].0 + word@.len());
            }
            assert(found@ =~= match_pairs(self.data.buffer@, word@));
        }
        let mut kept: Vec<(usize, usize)> = Vec::new();
        let mut i: usize = 0;
        let mut prev_end: usize = 0;
        while i < found.len()
            invariant
                i <= found@.len(),
                forall|k: int| 0 <= k < found@.len() ==> (#[trigger] found@[k]).0 <= found@[k].1,
                kept@ + filter_overlaps(found@, i as int, prev_end as int) == filter_overlaps(
                    found@,
                    0,
                    0,
                ),
            decreases found@.len() - i,
        {
            let ghost pre = kept@;
            let m = found[i];
            if m.0 >= prev_end {
                kept.push(m);
                prev_end = m.1;
                proof {
                    assert(kept@ + filter_overlaps(found@, i + 1, prev_end as int) =~= pre + (
                    seq![found@[i as int]] + filter_overlaps(found@, i + 1, prev_end as int)));
                }
            }
            i = i + 1;
        }
        proof {
            assert(filter_overlaps(found@, i as int, prev_end as int) =~= Seq::<
                (usize, usize),
            >::empty());
            assert(kept@ =~= filter_overlaps(found@, 0, 0));
            lemma_filter_overlaps_wf(found@, 0, 0);
        }
        self.context.highlight_register = kept;
        self.context.h_reg = 0;
    }

    /// Cycles the highlight cursor: `n` forward, `N` backward, both wrapping;
    /// a no-op when there are no matches.
    pub fn update_h_reg(&mut self, k: u8) -> (r: Option<EditorHealth>)
        requires
            old(self).wf(),
            k == 110 || k == 78,  // 'n' or 'N'
        ensures
            r == Some(EditorHealth::Healthy),
            final(self).wf(),
            cycle_rel(*old(self), *final(self), k),
    {
        let len = self.context.highlight_register.len();
        if len == 0 {
            return Some(EditorHealth::Healthy);
        }
        if k == 110 {
            self.context.h_reg = (self.context.h_reg + 1) % len;
        } else {
            if self.context.h_reg == 0 {
                self.context.h_reg = len - 1;
            } else {
                self.context.h_reg = self.context.h_reg - 1;
            }
            proof {
                let h = old(self).context.h_reg as int;
                let l = len as int;
                if h == 0 {
                    vstd::arithmetic::div_mod::lemma_small_mod((l - 1) as nat, l as nat);
                } else {
                    vstd::arithmetic::div_mod::lemma_mod_multiples_vanish(1, h - 1, l);
                    vstd::arithmetic::div_mod::lemma_small_mod((h - 1) as nat, l as nat);
                }
            }
        }
        Some(EditorHealth::Healthy)
    }

    /// Marks the session as told to exit.
    pub fn exit_editor(&mut self) -> (r: Option<EditorHealth>)
        ensures
            r == Some(EditorHealth::Exit),
            final(self).context == (EditorContext {
                state: EditorHealth::Exit,
                ..old(self).context
            }),
            *final(self) == (Editor { context: final(self).context, ..*old(self) }),
    {
        self.context.state = EditorHealth::Exit;
        Some(EditorHealth::Exit)
    }

    /// One navigation key: `h`, `j`, `k`, `l` move one cell, the control
    /// combinations scroll twenty rows.
    #[verifier::rlimit(50)]
    pub fn navigate(&mut self, k: u8) -> (r: Option<EditorHealth>)
        requires
            old(self).wf(),
            k == 4 || k == 21 || k == 104 || k == 106 || k == 107 || k == 108,
        ensures
            r == Some(EditorHealth::Healthy),
            final(self).wf(),
            navigate_rel(*old(self), *final(self), k),
    {
        proof {
            lemma_newline_positions_props(self.data.buffer@);
            assert(self.data.buffer.len() == self.data.buffer@.len());
            crate::cursor::lemma_move_in_doc(
                self.nl(),
                self.data.buffer@.len() as int,
                self.cursor,
                nav_dir(k),
                nav_offset(k),
            );
        }
        let _ = if k == 104 {
            self.cursor.move_cursor(&self.data.new_lines, CursorDirections::Left, 1)
        } else if k == 106 {
            self.cursor.move_cursor(&self.data.new_lines, CursorDirections::Down, 1)
        } else if k == 107 {
            self.cursor.move_cursor(&self.data.new_lines, CursorDirections::Up, 1)
        } else if k == 108 {
            self.cursor.move_cursor(&self.data.new_lines, CursorDirections::Right, 1)
        } else if k == 4 {
            self.cursor.move_cursor(&self.data.new_lines, CursorDirections::Down, 20)
        } else {
            self.cursor.move_cursor(&self.data.new_lines, CursorDirections::Up, 20)
        };
        Some(EditorHealth::Healthy)
    }

    /// Insert-mode entry with positioning: `a` after the cursor, `I` at the
    /// line's begin, `A` at its end.
    pub fn move_cursor_insert(&mut self, k: u8) -> (r: Option<EditorHealth>)
        requires
            old(self).wf(),
            k == 97 || k == 73 || k == 65,
        ensures
            r == Some(EditorHealth::Healthy),
            final(self).wf(),
            insert_entry_rel(*old(self), *final(self), k),
    {
        proof {
            lemma_newline_positions_props(self.data.buffer@);
            assert(self.data.buffer.len() == self.data.buffer@.len());
            crate::cursor::lemma_move_in_doc(
                self.nl(),
                self.data.buffer@.len() as int,
                self.cursor,
                insert_entry_dir(k),
                1,
            );
        }
        let _ = if k == 73 {
            self.cursor.move_cursor(&self.data.new_lines, CursorDirections::LineBegin, 1)
        } else if k == 65 {
            self.cursor.move_cursor(&self.data.new_lines, CursorDirections::LineEnd, 1)
        } else {
            self.cursor.move_cursor(&self.data.new_lines, CursorDirections::Right, 1)
        };
        self.change_mode(EditorModes::Insert)
    }

    /// One key in Insert mode: Escape returns to Normal, Backspace deletes
    /// the byte before the cursor, anything else is inserted at the cursor;
    /// every edit marks the session dirty.
    pub fn handle_insert_mode(&mut self, k: u8) -> (r: Option<EditorHealth>)
        requires
            old(self).wf(),
            old(self).data.buffer@.len() < usize::MAX,
        ensures
            r == Some(EditorHealth::Healthy),
            final(self).wf(),
            insert_mode_rel(*old(self), *final(self), k),
    {
        if k == 27 {
            self.change_mode(EditorModes::Normal)
        } else if k == 127 {
            self.context.dirty = true;
            crate::operations::remove_char(&mut self.cursor, &mut self.data)
        } else {
            self.context.dirty = true;
            crate::operations::insert_char(&mut self.cursor, &mut self.data, k)
        }
    }

    /// One key of the pending repeat count: digits accumulate (saturating),
    /// Enter commits the one-based count into `line_reg`, anything else
    /// cancels.
    #[verifier::rlimit(50)]
    pub fn update_line_reg(&mut self, k: u8) -> (r: Option<EditorHealth>)
        requires
            old(self).wf(),
        ensures
            r == Some(EditorHealth::Healthy),
            final(self).wf(),
            count_key_rel(*old(self), *final(self), k),
    {
        if k >= 48 && k <= 57 {
            let d = (k - 48) as usize;
            match self.count_reg.checked_mul(10) {
                Some(v) => match v.checked_add(d) {
                    Some(w) => {
                        self.count_reg = w;
                    },
                    _ => {
                        self.count_reg = usize::MAX;
                    },
                },
                _ => {
                    self.count_reg = usize::MAX;
                },
            }
        } else if k == 13 {
            self.context.line_reg = if self.count_reg > 0 {
                self.count_reg - 1
            } else {
                0
            };
            self.count_reg = 0;
            self.sub_mode = SubMode::Base;
        } else {
            self.count_reg = 0;
            self.sub_mode = SubMode::Base;
        }
        Some(EditorHealth::Healthy)
    }

    /// The key that completes a pending `d` operator.
    pub fn handle_delete_key(&mut self, k: u8) -> (r: Option<EditorHealth>)
        requires
            old(self).wf(),
        ensures
            r == Some(EditorHealth::Healthy),
            final(self).wf(),
            delete_key_rel(*old(self), *final(self), k),
    {
        self.sub_mode = SubMode::Base;
        crate::operations::delete_operations(&mut self.context, &mut self.cursor, &mut self.data, k)
    }

    /// One key of live search entry: Enter or Escape leaves the sub-mode;
    /// Backspace trims the query and any other key extends it, and either
    /// way the search re-runs on the in-progress query at once.
    pub fn handle_search_key(&mut self, k: u8) -> (r: Option<EditorHealth>)
        requires
            old(self).wf(),
        ensures
            r == Some(EditorHealth::Healthy),
            final(self).wf(),
            search_key_rel(*old(self), *final(self), k),
    {
        if k == 13 || k == 27 {
            self.sub_mode = SubMode::Base;
            self.cmd_reg = Vec::new();
        } else {
            if k == 127 {
                let _ = self.cmd_reg.pop();
            } else {
                self.cmd_reg.push(k);
            }
            let word = vstd::slice::slice_to_vec(self.cmd_reg.as_slice());
            self.find_in_file(word.as_slice());
        }
        Some(EditorHealth::Healthy)
    }

    /// Runs one accumulated `:` command against the fixed command set and
    /// reports what the surrounding program must do.
    pub fn run_cmd(&mut self, cmd: &Vec<u8>) -> (r: EditorAction)
        requires
            old(self).wf(),
        ensures
            final(self).wf(),
            run_cmd_rel(old(self).context, old(self).data.buffer@, final(self).context, cmd@, r),
            *final(self) == (Editor { context: final(self).context, ..*old(self) }),
    {
        let (head, tail) = split_cmd(cmd);
        let code = cmd_code(&head);
        if code == 1 {
            self.save_cmd(tail, false)
        } else if code == 2 {
            self.save_cmd(tail, true)
        } else if code == 3 {
            self.find_in_file(tail.as_slice());
            EditorAction::Idle
        } else if code == 4 {
            EditorAction::Load(tail)
        } else if code == 5 {
            if self.context.dirty {
                self.set_status_message(
                    "You have unsaved changes, press :q! to quit without saving",
                );
            } else {
                let _ = self.exit_editor();
            }
            EditorAction::Idle
        } else if code == 6 {
            let _ = self.exit_editor();
            EditorAction::Idle
        } else if code == 7 {
            self.context.highlight_register = Vec::new();
            self.context.h_reg = 0;
            EditorAction::Idle
        } else {
            self.set_status_message("This command does not exist!!!");
            EditorAction::Idle
        }
    }

    /// The state change of `w`/`wq`: resolve the target name (the argument,
    /// else the open file), refuse an empty one, and on `wq` mark the exit.
    fn save_cmd(&mut self, tail: Vec<u8>, quit: bool) -> (r: EditorAction)
        requires
            old(self).wf(),
        ensures
            final(self).wf(),
            save_rel(old(self).context, final(self).context, tail@, r, quit),
            *final(self) == (Editor { context: final(self).context, ..*old(self) }),
    {
        let target = if tail.len() > 0 {
            tail
        } else {
            vstd::slice::slice_to_vec(self.context.files.as_slice())
        };
        if target.len() == 0 {
            self.set_status_message("No file name");
            EditorAction::Idle
        } else if quit {
            let _ = self.exit_editor();
            EditorAction::SaveAndQuit(target)
        } else {
            EditorAction::Save(target)
        }
    }

    /// One key of command-line entry: Backspace trims, Escape cancels, Enter
    /// runs the accumulated command; anything else extends it.
    pub fn handle_command_key(&mut self, k: u8) -> (r: EditorAction)
        requires
            old(self).wf(),
        ensures
            final(self).wf(),
            command_key_rel(*old(self), *final(self), k, r),
    {
        if k == 127 {
            let _ = self.cmd_reg.pop();
            EditorAction::Idle
        } else if k == 13 {
            let cmd = vstd::slice::slice_to_vec(self.cmd_reg.as_slice());
            self.sub_mode = SubMode::Base;
            self.cmd_reg = Vec::new();
            self.run_cmd(&cmd)
        } else if k == 27 {
            self.sub_mode = SubMode::Base;
            self.cmd_reg = Vec::new();
            EditorAction::Idle
        } else {
            self.cmd_reg.push(k);
            EditorAction::Idle
        }
    }

    /// One key in Normal mode with no sub-mode pending: navigation, highlight
    /// cycling, mode and sub-mode entry.
    pub fn handle_normal_mode(&mut self, k: u8) -> (r: Option<EditorHealth>)
        requires
            old(self).wf(),
        ensures
            r == Some(EditorHealth::Healthy),
            final(self).wf(),
            normal_mode_rel(*old(self), *final(self), k),
    {
        if k == 4 || k == 21 || k == 104 || k == 106 || k == 107 || k == 108 {
            self.navigate(k)
        } else if Keys::is_number(k as usize) {
            self.sub_mode = SubMode::CountPending;
            self.count_reg = (k - 48) as usize;
            Some(EditorHealth::Healthy)
        } else if k == 110 || k == 78 {
            self.update_h_reg(k)
        } else if k == 100 {
            self.sub_mode = SubMode::DeletePending;
            Some(EditorHealth::Healthy)
        } else if k == 97 || k == 73 || k == 65 {
            self.move_cursor_insert(k)
        } else if k == 58 {
            self.sub_mode = SubMode::Command;
            self.cmd_reg = Vec::new();
            Some(EditorHealth::Healthy)
        } else if k == 47 {
            self.sub_mode = SubMode::Search;
            self.cmd_reg = Vec::new();
            Some(EditorHealth::Healthy)
        } else if k == 27 {
            self.change_mode(EditorModes::Normal)
        } else if k == 105 {
            self.change_mode(EditorModes::Insert)
        } else {
            Some(EditorHealth::Healthy)
        }
    }

    /// Dispatches one key byte by the current sub-mode and mode; the returned
    /// action is what the surrounding program must perform.
    pub fn process_key_press(&mut self, k: u8) -> (r: EditorAction)
        requires
            old(self).wf(),
            old(self).data.buffer@.len() < usize::MAX,
        ensures
            final(self).wf(),
            ({
                let pre = *old(self);
                let post = *final(self);
                match pre.sub_mode {
                    SubMode::Base => match pre.context.mode {
                        EditorModes::Normal => normal_mode_rel(pre, post, k) && (r matches
                        EditorAction::Idle),
                        EditorModes::Insert => insert_mode_rel(pre, post, k) && (r matches
                        EditorAction::Idle),
                    },
                    SubMode::Command => command_key_rel(pre, post, k, r),
                    SubMode::Search => search_key_rel(pre, post, k) && (r matches
                    EditorAction::Idle),
                    SubMode::DeletePending => delete_key_rel(pre, post, k) && (r matches
                    EditorAction::Idle),
                    SubMode::CountPending => count_key_rel(pre, post, k) && (r matches
                    EditorAction::Idle),
                }
            }),
    {
        match self.sub_mode {
            SubMode::Base => {
                match self.context.mode {
                    EditorModes::Normal => {
                        let _ = self.handle_normal_mode(k);
                    },
                    EditorModes::Insert => {
                        let _ = self.handle_insert_mode(k);
                    },
                }
                EditorAction::Idle
            },
            SubMode::Command => self.handle_command_key(k),
            SubMode::Search => {
                let _ = self.handle_search_key(k);
                EditorAction::Idle
            },
            SubMode::DeletePending => {
                let _ = self.handle_delete_key(k);
                EditorAction::Idle
            },
            SubMode::CountPending => {
                let _ = self.update_line_reg(k);
                EditorAction::Idle
            },
        }
    }

    /// The screen position of the active search match.
    pub fn file_index_to_cursor(&self) -> (r: (usize, usize))
        requires
            self.wf(),
            self.context.highlight_register@.len() > 0,
        ensures
            r.0 == screen_pos_of(
                self.nl(),
                self.context.highlight_register@[self.context.h_reg as int].0 as int,
            ).0,
            r.1 == screen_pos_of(
                self.nl(),
                self.context.highlight_register@[self.context.h_reg as int].0 as int,
            ).1,
    {
        file_index_to_cursor(&self.context, &self.data)
    }
}

/// Which direction a navigation key names.
pub open spec fn nav_dir(k: u8) -> CursorDirections {
    if k == 104 {
        CursorDirections::Left
    } else if k == 106 || k == 4 {
        CursorDirections::Down
    } else if k == 108 {
        CursorDirections::Right
    } else {
        CursorDirections::Up
    }
}

/// How far a navigation key moves: twenty rows for the scroll combinations,
/// one cell otherwise.
pub open spec fn nav_offset(k: u8) -> int {
    if k == 4 || k == 21 {
        20
    } else {
        1
    }
}

/// What `navigate` does: the cursor moves per `move_target` and the uniform
/// clamp; nothing else changes.
pub open spec fn navigate_rel(pre: Editor, post: Editor, k: u8) -> bool {
    let nl = pre.data.line_starts();
    let t = move_target(nl, nav_dir(k), nav_offset(k), pre.cursor.c_x as int, pre.cursor.c_y as int);
    &&& post.cursor == (Cursor {
        c_x: clamp_col(nl, t.1, t.0) as usize,
        c_y: t.1 as usize,
        ..pre.cursor
    })
    &&& post == (Editor { cursor: post.cursor, ..pre })
}

/// Where an insert-entry key positions the cursor.
pub open spec fn insert_entry_dir(k: u8) -> CursorDirections {
    if k == 73 {
        CursorDirections::LineBegin
    } else if k == 65 {
        CursorDirections::LineEnd
    } else {
        CursorDirections::Right
    }
}

/// What `move_cursor_insert` does: position per the key, then Insert mode.
pub open spec fn insert_entry_rel(pre: Editor, post: Editor, k: u8) -> bool {
    let nl = pre.data.line_starts();
    let t = move_target(nl, insert_entry_dir(k), 1, pre.cursor.c_x as int, pre.cursor.c_y as int);
    &&& post.cursor == (Cursor {
        c_x: clamp_col(nl, t.1, t.0) as usize,
        c_y: t.1 as usize,
        ..pre.cursor
    })
    &&& post.context == (EditorContext { mode: EditorModes::Insert, ..pre.context })
    &&& post == (Editor { cursor: post.cursor, context: post.context, ..pre })
}

/// What `update_h_reg` does: cycle the match cursor forward or backward.
pub open spec fn cycle_rel(pre: Editor, post: Editor, k: u8) -> bool {
    let len = pre.context.highlight_register@.len() as int;
    if len == 0 {
        post == pre
    } else {
        let h = pre.context.h_reg as int;
        &&& post.context.h_reg == (if k == 110 {
            (h + 1) % len
        } else {
            (h + len - 1) % len
        })
        &&& post.context == (EditorContext { h_reg: post.context.h_reg, ..pre.context })
        &&& post == (Editor { context: post.context, ..pre })
    }
}

/// What one Insert-mode key does.
pub open spec fn insert_mode_rel(pre: Editor, post: Editor, k: u8) -> bool {
    if k == 27 {
        &&& post.context == (EditorContext { mode: EditorModes::Normal, ..pre.context })
        &&& post == (Editor { context: post.context, ..pre })
    } else if k == 127 {
        let s = crate::operations::after_remove_char(pre.data.buffer@, pre.cursor);
        &&& post.data.buffer@ == s.0
        &&& post.data.indexed()
        &&& post.cursor == s.1
        &&& post.context == (EditorContext { dirty: true, ..pre.context })
        &&& post == (Editor {
            cursor: post.cursor,
            context: post.context,
            data: post.data,
            ..pre
        })
    } else {
        let s = crate::operations::after_insert_char(pre.data.buffer@, pre.cursor, k);
        &&& post.data.buffer@ == s.0
        &&& post.data.indexed()
        &&& post.cursor == s.1
        &&& post.context == (EditorContext { dirty: true, ..pre.context })
        &&& post == (Editor {
            cursor: post.cursor,
            context: post.context,
            data: post.data,
            ..pre
        })
    }
}

/// Saturating decimal accumulation of one digit.
pub open spec fn sat_acc(acc: int, d: int) -> int {
    if 10 * acc + d <= usize::MAX {
        10 * acc + d
    } else {
        usize::MAX as int
    }
}

/// What one pending-count key does.
pub open spec fn count_key_rel(pre: Editor, post: Editor, k: u8) -> bool {
    if 48 <= k <= 57 {
        post == (Editor {
            count_reg: sat_acc(pre.count_reg as int, k as int - 48) as usize,
            ..pre
        })
    } else if k == 13 {
        &&& post.context == (EditorContext {
            line_reg: (if pre.count_reg > 0 {
                (pre.count_reg - 1) as int
            } else {
                0
            }) as usize,
            ..pre.context
        })
        &&& post == (Editor { context: post.context, sub_mode: SubMode::Base, count_reg: 0, ..pre })
    } else {
        post == (Editor { sub_mode: SubMode::Base, count_reg: 0, ..pre })
    }
}

/// What one search-entry key does: every keystroke that changes the
/// in-progress query, Backspace included, re-runs the search at once.
pub open spec fn search_key_rel(pre: Editor, post: Editor, k: u8) -> bool {
    if k == 13 || k == 27 {
        &&& post.cmd_reg@ == Seq::<u8>::empty()
        &&& post == (Editor { sub_mode: SubMode::Base, cmd_reg: post.cmd_reg, ..pre })
    } else {
        let q = if k == 127 {
            if pre.cmd_reg@.len() > 0 {
                pre.cmd_reg@.drop_last()
            } else {
                pre.cmd_reg@
            }
        } else {
            pre.cmd_reg@.push(k)
        };
        &&& post.cmd_reg@ == q
        &&& post.context.highlight_register@ == search_ranges(pre.data.buffer@, q)
        &&& post.context == (EditorContext {
            highlight_register: post.context.highlight_register,
            h_reg: 0,
            ..pre.context
        })
        &&& post == (Editor { cmd_reg: post.cmd_reg, context: post.context, ..pre })
    }
}

/// What the key completing a `d` operator does.
pub open spec fn delete_key_rel(pre: Editor, post: Editor, k: u8) -> bool {
    &&& post.sub_mode == SubMode::Base
    &&& post.editor_configs == pre.editor_configs
    &&& post.cmd_reg == pre.cmd_reg
    &&& post.count_reg == pre.count_reg
    &&& post.data.indexed()
    &&& post.context == (EditorContext { dirty: post.context.dirty, ..pre.context })
    &&& (post.context.dirty == pre.context.dirty || post.context.dirty)
    &&& if k == 100 {
        let s = crate::operations::after_delete_line(pre.data.buffer@, pre.cursor);
        post.data.buffer@ == s.0 && post.cursor == s.1
    } else if k == 107 || k == 106 || k == 108 || k == 104 {
        crate::operations::call_delete_rel(
            pre.context,
            pre.cursor,
            pre.data.buffer@,
            post.context,
            post.cursor,
            post.data.buffer@,
            k,
        )
    } else {
        post.data.buffer@ == pre.data.buffer@ && post.cursor == pre.cursor && post.context
            == pre.context
    }
}

/// The first token of a command line: its bytes up to the first space.
pub open spec fn cmd_head(cmd: Seq<u8>) -> Seq<u8>
    decreases cmd.len(),
{
    if cmd.len() == 0 {
        Seq::empty()
    } else if cmd[0] == 32 {
        Seq::empty()
    } else {
        seq![cmd[0]] + cmd_head(cmd.drop_first())
    }
}

/// The sequence with every space byte removed.
pub open spec fn strip_spaces(s: Seq<u8>) -> Seq<u8> {
    s.filter(|b: u8| b != 32)
}

/// A command line's argument: the bytes after the first space, joined with
/// every further space removed.
pub open spec fn cmd_tail(cmd: Seq<u8>) -> Seq<u8>
    decreases cmd.len(),
{
    if cmd.len() == 0 {
        Seq::empty()
    } else if cmd[0] == 32 {
        strip_spaces(cmd.drop_first())
    } else {
        cmd_tail(cmd.drop_first())
    }
}

/// What `w`/`wq` do to the session and what they ask of the program.
pub open spec fn save_rel(
    pre: EditorContext,
    post: EditorContext,
    tail: Seq<u8>,
    r: EditorAction,
    quit: bool,
) -> bool {
    let target = if tail.len() > 0 {
        tail
    } else {
        pre.files@
    };
    if target.len() == 0 {
        &&& post.status_message@ == "No file name"@
        &&& post == (EditorContext { status_message: post.status_message, ..pre })
        &&& (r matches EditorAction::Idle)
    } else if quit {
        &&& post == (EditorContext { state: EditorHealth::Exit, ..pre })
        &&& (match r {
            EditorAction::SaveAndQuit(p) => p@ == target,
            _ => false,
        })
    } else {
        &&& post == pre
        &&& (match r {
            EditorAction::Save(p) => p@ == target,
            _ => false,
        })
    }
}

/// What one `:` command does, by its head token: `w`/`wq` save (and quit),
/// `s`/`search` run a search, `o` asks for a load, `q` refuses to quit a
/// dirty session, `q!` always quits, `noh` clears the highlights, anything
/// else reports an unknown command.
pub open spec fn run_cmd_rel(
    pre: EditorContext,
    content: Seq<u8>,
    post: EditorContext,
    cmd: Seq<u8>,
    r: EditorAction,
) -> bool {
    let head = cmd_head(cmd);
    let tail = cmd_tail(cmd);
    if head == seq![119u8] {
        save_rel(pre, post, tail, r, false)
    } else if head == seq![119u8, 113u8] {
        save_rel(pre, post, tail, r, true)
    } else if head == seq![115u8] || head == seq![115u8, 101u8, 97u8, 114u8, 99u8, 104u8] {
        &&& post.highlight_register@ == search_ranges(content, tail)
        &&& post == (EditorContext {
            highlight_register: post.highlight_register,
            h_reg: 0,
            ..pre
        })
        &&& (r matches EditorAction::Idle)
    } else if head == seq![111u8] {
        &&& post == pre
        &&& (match r {
            EditorAction::Load(p) => p@ == tail,
            _ => false,
        })
    } else if head == seq![113u8] {
        if pre.dirty {
            &&& post.status_message@
                == "You have unsaved changes, press :q! to quit without saving"@
            &&& post == (EditorContext { status_message: post.status_message, ..pre })
            &&& (r matches EditorAction::Idle)
        } else {
            &&& post == (EditorContext { state: EditorHealth::Exit, ..pre })
            &&& (r matches EditorAction::Idle)
        }
    } else if head == seq![113u8, 33u8] {
        &&& post == (EditorContext { state: EditorHealth::Exit, ..pre })
        &&& (r matches EditorAction::Idle)
    } else if head == seq![110u8, 111u8, 104u8] {
        &&& post.highlight_register@ == Seq::<(usize, usize)>::empty()
        &&& post == (EditorContext {
            highlight_register: post.highlight_register,
            h_reg: 0,
            ..pre
        })
        &&& (r matches EditorAction::Idle)
    } else {
        &&& post.status_message@ == "This command does not exist!!!"@
        &&& post == (EditorContext { status_message: post.status_message, ..pre })
        &&& (r matches EditorAction::Idle)
    }
}

/// What one command-line key does.
pub open spec fn command_key_rel(pre: Editor, post: Editor, k: u8, r: EditorAction) -> bool {
    if k == 127 {
        &&& post.cmd_reg@ == (if pre.cmd_reg@.len() > 0 {
            pre.cmd_reg@.drop_last()
        } else {
            pre.cmd_reg@
        })
        &&& post == (Editor { cmd_reg: post.cmd_reg, ..pre })
        &&& (r matches EditorAction::Idle)
    } else if k == 13 {
        &&& run_cmd_rel(pre.context, pre.data.buffer@, post.context, pre.cmd_reg@, r)
        &&& post.cmd_reg@ == Seq::<u8>::empty()
        &&& post == (Editor {
            context: post.context,
            sub_mode: SubMode::Base,
            cmd_reg: post.cmd_reg,
            ..pre
        })
    } else if k == 27 {
        &&& post.cmd_reg@ == Seq::<u8>::empty()
        &&& post == (Editor { sub_mode: SubMode::Base, cmd_reg: post.cmd_reg, ..pre })
        &&& (r matches EditorAction::Idle)
    } else {
        &&& post.cmd_reg@ == pre.cmd_reg@.push(k)
        &&& post == (Editor { cmd_reg: post.cmd_reg, ..pre })
        &&& (r matches EditorAction::Idle)
    }
}

/// What one Normal-mode key does.
pub open spec fn normal_mode_rel(pre: Editor, post: Editor, k: u8) -> bool {
    if k == 4 || k == 21 || k == 104 || k == 106 || k == 107 || k == 108 {
        navigate_rel(pre, post, k)
    } else if 48 <= k <= 57 {
        post == (Editor {
            sub_mode: SubMode::CountPending,
            count_reg: (k - 48) as usize,
            ..pre
        })
    } else if k == 110 || k == 78 {
        cycle_rel(pre, post, k)
    } else if k == 100 {
        post == (Editor { sub_mode: SubMode::DeletePending, ..pre })
    } else if k == 97 || k == 73 || k == 65 {
        insert_entry_rel(pre, post, k)
    } else if k == 58 {
        &&& post.cmd_reg@ == Seq::<u8>::empty()
        &&& post == (Editor { sub_mode: SubMode::Command, cmd_reg: post.cmd_reg, ..pre })
    } else if k == 47 {
        &&& post.cmd_reg@ == Seq::<u8>::empty()
        &&& post == (Editor { sub_mode: SubMode::Search, cmd_reg: post.cmd_reg, ..pre })
    } else if k == 27 {
        &&& post.context == (EditorContext { mode: EditorModes::Normal, ..pre.context })
        &&& post == (Editor { context: post.context, ..pre })
    } else if k == 105 {
        &&& post.context == (EditorContext { mode: EditorModes::Insert, ..pre.context })
        &&& post == (Editor { context: post.context, ..pre })
    } else {
        post == pre
    }
}

/// The index of the first row whose newline lies beyond `v`, scanning from
/// `i`; the last row when no boundary lies beyond.
pub open spec fn match_row_from(nl: Seq<int>, v: int, i: int) -> int
    decreases nl.len() - i,
    when 0 <= i
{
    if i >= nl.len() {
        if nl.len() == 0 {
            0
        } else {
            nl.len() - 1
        }
    } else if nl[i] > v {
        i
    } else {
        match_row_from(nl, v, i + 1)
    }
}

/// The screen position of a byte offset: the row holding it per the line
/// index, and the offset's distance into that row.
pub open spec fn screen_pos_of(nl: Seq<int>, v: int) -> (int, int) {
    let row = match_row_from(nl, v, 0);
    let col = if v >= row_start_abs(nl, row) {
        v - row_start_abs(nl, row)
    } else {
        0
    };
    (col, row)
}

/// Unfolding a command line past a prefix without spaces.
proof fn lemma_cmd_split_skip(cmd: Seq<u8>, i: int)
    requires
        0 <= i <= cmd.len(),
        forall|j: int| 0 <= j < i ==> cmd[j] != 32,
    ensures
        cmd_head(cmd) == cmd.subrange(0, i) + cmd_head(cmd.subrange(i, cmd.len() as int)),
        cmd_tail(cmd) == cmd_tail(cmd.subrange(i, cmd.len() as int)),
    decreases i,
{
    if i == 0 {
        assert(cmd.subrange(0, cmd.len() as int) =~= cmd);
        assert(cmd.subrange(0, 0) + cmd_head(cmd) =~= cmd_head(cmd));
    } else {
        lemma_cmd_split_skip(cmd, i - 1);
        let s = cmd.subrange(i - 1, cmd.len() as int);
        assert(s[0] == cmd[i - 1]);
        assert(s[0] != 32);
        assert(s.drop_first() =~= cmd.subrange(i, cmd.len() as int));
        assert(cmd_head(s) == seq![s[0]] + cmd_head(cmd.subrange(i, cmd.len() as int)));
        assert(cmd.subrange(0, i - 1) + cmd_head(s) =~= cmd.subrange(0, i) + cmd_head(
            cmd.subrange(i, cmd.len() as int),
        ));
        assert(cmd_tail(s) == cmd_tail(cmd.subrange(i, cmd.len() as int)));
    }
}

/// Splits a command line into its head token and its joined argument bytes.
fn split_cmd(cmd: &Vec<u8>) -> (r: (Vec<u8>, Vec<u8>))
    ensures
        r.0@ == cmd_head(cmd@),
        r.1@ == cmd_tail(cmd@),
{
    let n = cmd.len();
    let mut i: usize = 0;
    while i < n && cmd[i] != 32
        invariant
            i <= n,
            n == cmd@.len(),
            forall|j: int| 0 <= j < i ==> cmd@[j] != 32,
        decreases n - i,
    {
        i = i + 1;
    }
    let mut head: Vec<u8> = Vec::new();
    let mut j: usize = 0;
    while j < i
        invariant
            j <= i <= n,
            n == cmd@.len(),
            head@ == cmd@.subrange(0, j as int),
        decreases i - j,
    {
        head.push(cmd[j]);
        proof {
            assert(head@ =~= cmd@.subrange(0, j + 1));
        }
        j = j + 1;
    }
    proof {
        lemma_cmd_split_skip(cmd@, i as int);
        let s = cmd@.subrange(i as int, n as int);
        if i == n {
            assert(s =~= Seq::<u8>::empty());
            assert(cmd_head(s) =~= Seq::<u8>::empty());
        } else {
            assert(s[0] == cmd@[i as int]);
            assert(s[0] == 32);
            assert(cmd_head(s) =~= Seq::<u8>::empty());
        }
        assert(head@ =~= cmd_head(cmd@));
    }
    let mut tail: Vec<u8> = Vec::new();
    if i < n {
        proof {
            reveal(Seq::filter);
            assert(tail@ =~= strip_spaces(cmd@.subrange(i + 1, i + 1)));
        }
        let mut j2: usize = i + 1;
        while j2 < n
            invariant
                i < n,
                i + 1 <= j2 <= n,
                n == cmd@.len(),
                tail@ == strip_spaces(cmd@.subrange(i + 1, j2 as int)),
            decreases n - j2,
        {
            let ghost pre = cmd@.subrange(i + 1, j2 as int);
            if cmd[j2] != 32 {
                tail.push(cmd[j2]);
            }
            proof {
                reveal(Seq::filter);
                let cur = cmd@.subrange(i + 1, j2 + 1);
                assert(cur.drop_last() =~= pre);
                assert(cur.last() == cmd@[j2 as int]);
                assert(tail@ =~= strip_spaces(cur));
            }
            j2 = j2 + 1;
        }
        proof {
            let s = cmd@.subrange(i as int, n as int);
            assert(s.drop_first() =~= cmd@.subrange(i + 1, n as int));
            assert(cmd_tail(s) == strip_spaces(s.drop_first()));
            assert(tail@ =~= cmd_tail(cmd@));
        }
    } else {
        proof {
            let s = cmd@.subrange(i as int, n as int);
            assert(s =~= Seq::<u8>::empty());
            assert(cmd_tail(s) =~= Seq::<u8>::empty());
            assert(tail@ =~= cmd_tail(cmd@));
        }
    }
    (head, tail)
}

/// Classifies a command head against the fixed command set.
fn cmd_code(head: &Vec<u8>) -> (code: u8)
    ensures
        (code == 1) <==> head@ == seq![119u8],
        (code == 2) <==> head@ == seq![119u8, 113u8],
        (code == 3) <==> (head@ == seq![115u8] || head@ == seq![
            115u8,
            101u8,
            97u8,
            114u8,
            99u8,
            104u8,
        ]),
        (code == 4) <==> head@ == seq![111u8],
        (code == 5) <==> head@ == seq![113u8],
        (code == 6) <==> head@ == seq![113u8, 33u8],
        (code == 7) <==> head@ == seq![110u8, 111u8, 104u8],
{
    let code: u8 = if head.len() == 1 {
        if head[0] == 119 {
            1
        } else if head[0] == 115 {
            3
        } else if head[0] == 111 {
            4
        } else if head[0] == 113 {
            5
        } else {
            0
        }
    } else if head.len() == 2 {
        if head[0] == 119 && head[1] == 113 {
            2
        } else if head[0] == 113 && head[1] == 33 {
            6
        } else {
            0
        }
    } else if head.len() == 3 {
        if head[0] == 110 && head[1] == 111 && head[2] == 104 {
            7
        } else {
            0
        }
    } else if head.len() == 6 {
        if head[0] == 115 && head[1] == 101 && head[2] == 97 && head[3] == 114 && head[4] == 99
            && head[5] == 104 {
            3
        } else {
            0
        }
    } else {
        0
    };
    proof {
        let h = head@;
        if h.len() == 1 {
            assert(h =~= seq![h[0]]);
        }
        if h.len() == 2 {
            assert(h =~= seq![h[0], h[1]]);
        }
        if h.len() == 3 {
            assert(h =~= seq![h[0], h[1], h[2]]);
        }
        if h.len() == 6 {
            assert(h =~= seq![h[0], h[1], h[2], h[3], h[4], h[5]]);
        }
    }
    code
}

/// The screen position of the active search match: the row that holds its
/// start (the first index boundary strictly beyond it, else the last row)
/// and the start's column within that row.
pub fn file_index_to_cursor(context: &EditorContext, data: &AppendBuffer) -> (r: (usize, usize))
    requires
        data.indexed(),
        context.highlight_register@.len() > 0,
        context.h_reg < context.highlight_register@.len(),
    ensures
        r.0 == screen_pos_of(
            data.line_starts(),
            context.highlight_register@[context.h_reg as int].0 as int,
        ).0,
        r.1 == screen_pos_of(
            data.line_starts(),
            context.highlight_register@[context.h_reg as int].0 as int,
        ).1,
{
    proof {
        lemma_newline_positions_props(data.buffer@);
        assert(data.buffer.len() == data.buffer@.len());
    }
    let ghost nl = data.line_starts();
    let value = context.highlight_register[context.h_reg].0;
    let ghost v = value as int;
    let n = data.new_lines.len();
    let mut row: usize = if n == 0 {
        0
    } else {
        n - 1
    };
    let mut i: usize = 0;
    while i < n
        invariant_except_break
            i <= n,
            n == data.new_lines@.len(),
            data.indexed(),
            nl == data.line_starts(),
            v == value as int,
            match_row_from(nl, v, 0) == match_row_from(nl, v, i as int),
            row as int == (if n == 0 {
                0
            } else {
                n - 1
            }),
        ensures
            row as int == match_row_from(nl, v, 0),
            row < n || (n == 0 && row == 0),
            n == data.new_lines@.len(),
            nl == data.line_starts(),
            v == value as int,
        decreases n - i,
    {
        proof {
            assert(nl[i as int] == data.new_lines@[i as int] as int);
        }
        if data.new_lines[i] > value {
            row = i;
            break ;
        }
        i = i + 1;
    }
    let start = if row == 0 || n == 0 {
        0
    } else {
        proof {
            assert(row as int - 1 < nl.len());
            assert(nl[row as int - 1] == data.new_lines@[row as int - 1] as int);
            assert(nl[row as int - 1] < data.buffer@.len());
        }
        data.new_lines[row - 1] + 1
    };
    proof {
        assert(0 <= match_row_from(nl, v, 0) <= nl.len());
        assert(start as int == row_start_abs(nl, row as int));
    }
    let col = if value >= start {
        value - start
    } else {
        0
    };
    (col, row)
}

} // verus!
