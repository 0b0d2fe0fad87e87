use vstd::prelude::*;

use crate::buffer_plugin::BufferPlugin;
use crate::data::id::{BufferId, PaneId};
use crate::buffer::{lemma_chars_within_boundary, lemma_line_pos, position_byte};
use crate::buffer_plugin::{
    history_outcome, insert_outcome, lock_outcome, remove_outcome, unlock_outcome,
};
use crate::data::{BufferPosition, CommandLineAction, OpenFloatWindowConfig, CursorMove, EditAction, LockToken, Mode};
use crate::registry::{
    broadcast, broadcast_queued, command_queued, consumable_queued, emit_consumable, execute_command,
    Registry,
};
use crate::rope::{chars_within, line_count, line_text};
use crate::value::{Value, ValueModel};
use crate::draw::{CommandModel, CursorStyle, DrawCommand};
use crate::screen::{char_width, col_width, cols, str_width, trim_display_range, trimmed};
use crate::text::{
    char_boundary, char_index_at, decimal, str_concat, usize_to_decimal, char_to_string, splice_chars, split_whitespace, string_from_chars, words, char_len, char_len_utf8, lemma_utf8_len_one, lemma_utf8_len_mono, lemma_utf8_len_prefix, prefix_bytes, str_chars, str_len_bytes, trim_newlines,
    utf8_len,
};

verus! {

/// A pane of the modal editor: the buffer it shows, its cursor and the
/// top-left cell of its view.
#[derive(Debug, Clone, Copy)]
pub struct PaneState {
    pub buffer_id: BufferId,
    pub cursor: BufferPosition,
    pub view_offset: (usize, usize),
}

/// Line `l` of `t` without its line break.
pub open spec fn line_of(t: Seq<char>, l: int) -> Seq<char> {
    trim_newlines(line_text(t, l))
}

/// The last column that the cursor may take on line `l`: its end in insert
/// mode, else the start of its last character.
pub open spec fn max_col(t: Seq<char>, l: int, mode: Mode) -> int {
    let s = line_of(t, l);
    if mode is Insert {
        utf8_len(s) as int
    } else if s.len() == 0 {
        0
    } else {
        utf8_len(s.drop_last()) as int
    }
}

/// A cursor moved onto an existing line of `t`, and no further right than
/// `max_col`.
pub open spec fn clamp(c: BufferPosition, mode: Mode, t: Seq<char>) -> BufferPosition {
    let last = line_count(t) - 1;
    let l = if c.line_idx < last {
        c.line_idx as int
    } else {
        last
    };
    let m = max_col(t, l, mode);
    BufferPosition {
        line_idx: l as usize,
        byte_col_idx: (if c.byte_col_idx < m {
            c.byte_col_idx as int
        } else {
            m
        }) as usize,
    }
}

impl PaneState {
    /// A pane on a buffer, with the cursor and the view at the start.
    pub fn new(buffer_id: BufferId) -> (p: Self)
        ensures
            p.buffer_id == buffer_id,
            p.cursor == (BufferPosition { line_idx: 0, byte_col_idx: 0 }),
            p.view_offset == (0usize, 0usize),
    {
        PaneState {
            buffer_id,
            cursor: BufferPosition { line_idx: 0, byte_col_idx: 0 },
            view_offset: (0, 0),
        }
    }

    /// The number of lines of the pane's buffer.
    pub fn len_lines(&self, buffers: &BufferPlugin) -> (n: usize)
        requires
            buffers.wf(),
            buffers.has(self.buffer_id),
        ensures
            n == line_count(buffers.get(self.buffer_id).text()),
    {
        match buffers.len_lines(self.buffer_id) {
            Ok(n) => n,
            Err(_) => 0,
        }
    }

    /// A line of the pane's buffer, without its line break.
    pub fn line(&self, buffers: &BufferPlugin, line_idx: usize) -> (r: Option<String>)
        requires
            buffers.wf(),
            buffers.has(self.buffer_id),
            line_idx < line_count(buffers.get(self.buffer_id).text()),
        ensures
            r matches Some(s) && s@ == line_of(buffers.get(self.buffer_id).text(), line_idx as int),
    {
        match buffers.line(self.buffer_id, line_idx) {
            Ok(s) => Some(s),
            Err(_) => None,
        }
    }

    /// The length in bytes of a line of the pane's buffer.
    pub fn line_len_bytes(&self, buffers: &BufferPlugin, line_idx: usize) -> (r: Option<usize>)
        requires
            buffers.wf(),
            buffers.has(self.buffer_id),
            line_idx < line_count(buffers.get(self.buffer_id).text()),
        ensures
            r matches Some(n) && n == utf8_len(
                line_of(buffers.get(self.buffer_id).text(), line_idx as int),
            ),
    {
        match buffers.line_len_bytes(self.buffer_id, line_idx) {
            Ok(n) => Some(n),
            Err(_) => None,
        }
    }

    /// Moves the cursor onto the buffer's text; see `clamp`.
    pub fn clamp_cursor(&mut self, mode: Mode, buffers: &BufferPlugin)
        requires
            buffers.wf(),
            buffers.has(old(self).buffer_id),
        ensures
            *final(self) == (PaneState {
                cursor: clamp(old(self).cursor, mode, buffers.get(old(self).buffer_id).text()),
                ..*old(self)
            }),
    {
        let ghost t = buffers.get(self.buffer_id).text();
        let mut cursor = self.cursor;
        let n = self.len_lines(buffers);
        let max_lines = if n == 0 {
            0
        } else {
            n - 1
        };
        if max_lines < cursor.line_idx {
            cursor.line_idx = max_lines;
        }
        let line = match self.line(buffers, cursor.line_idx) {
            Some(s) => s,
            None => String::new(),
        };
        let max = match mode {
            Mode::Insert => str_len_bytes(line.as_str()),
            _ => last_char_start(line.as_str()),
        };
        if max < cursor.byte_col_idx {
            cursor.byte_col_idx = max;
        }
        self.cursor = cursor;
    }
}

/// The byte at which the last character of `s` starts; 0 for an empty string.
pub fn last_char_start(s: &str) -> (r: usize)
    ensures
        r == (if s@.len() == 0 {
            0
        } else {
            utf8_len(s@.drop_last()) as int
        }),
{
    let cs = str_chars(s);
    let total = str_len_bytes(s);
    if cs.len() == 0 {
        return 0;
    }
    assert(cs@.take(cs@.len() - 1) =~= s@.drop_last());
    prefix_bytes(&cs, cs.len() - 1)
}

/// The byte offset `count` characters left of byte `col` in `s`, or 0.
pub open spec fn left_col(s: Seq<char>, col: int, count: int) -> int {
    let k = chars_within(s, col) as int;
    if count <= k {
        utf8_len(s.take(k - count)) as int
    } else {
        0
    }
}

/// The byte offset `count` characters right of byte `col` in `s`, or the
/// end of `s`.
pub open spec fn right_col(s: Seq<char>, col: int, count: int) -> int {
    let k = chars_within(s, col) as int;
    if k + count < s.len() {
        utf8_len(s.take(k + count)) as int
    } else {
        utf8_len(s) as int
    }
}

/// Moves byte offset `col` of `cs` by `count` characters to the left.
pub fn step_left(cs: &Vec<char>, col: usize, count: usize) -> (r: usize)
    requires
        utf8_len(cs@) <= usize::MAX,
        char_boundary(cs@, col as int),
    ensures
        r == left_col(cs@, col as int, count as int),
{
    let k = match char_index_at(cs, col) {
        Some(k) => k,
        None => 0,
    };
    proof {
        lemma_chars_within_boundary(cs@, k as int);
    }
    if count <= k {
        prefix_bytes(cs, k - count)
    } else {
        0
    }
}

/// Moves byte offset `col` of `cs` by `count` characters to the right.
pub fn step_right(cs: &Vec<char>, col: usize, count: usize) -> (r: usize)
    requires
        utf8_len(cs@) <= usize::MAX,
        char_boundary(cs@, col as int),
    ensures
        r == right_col(cs@, col as int, count as int),
{
    let k = match char_index_at(cs, col) {
        Some(k) => k,
        None => 0,
    };
    proof {
        lemma_chars_within_boundary(cs@, k as int);
    }
    if count < cs.len() - k {
        prefix_bytes(cs, k + count)
    } else {
        assert(cs@.take(cs@.len() as int) =~= cs@);
        prefix_bytes(cs, cs.len())
    }
}

/// A pane's state after a cursor motion in text `t`, before clamping.
pub open spec fn moved(s: PaneState, mv: CursorMove, t: Seq<char>) -> PaneState {
    let c = s.cursor;
    let line = line_of(t, c.line_idx as int);
    match mv {
        CursorMove::Up { count } => PaneState {
            cursor: BufferPosition {
                line_idx: (if c.line_idx >= count {
                    c.line_idx - count
                } else {
                    0
                }) as usize,
                ..c
            },
            ..s
        },
        CursorMove::Down { count } => PaneState {
            cursor: BufferPosition { line_idx: (c.line_idx + count) as usize, ..c },
            ..s
        },
        CursorMove::Left { count } => PaneState {
            cursor: BufferPosition {
                byte_col_idx: left_col(line, c.byte_col_idx as int, count as int) as usize,
                ..c
            },
            ..s
        },
        CursorMove::Right { count } => PaneState {
            cursor: BufferPosition {
                byte_col_idx: right_col(line, c.byte_col_idx as int, count as int) as usize,
                ..c
            },
            ..s
        },
        _ => s,
    }
}

/// What a cursor motion needs from the text: the cursor's line exists and
/// the cursor stands at a character boundary of it, for horizontal motions,
/// and a downward motion stays within the machine's integers.
pub open spec fn motion_ok(s: PaneState, mv: CursorMove, t: Seq<char>) -> bool {
    match mv {
        CursorMove::Down { count } => s.cursor.line_idx + count <= usize::MAX,
        CursorMove::Left { count } => count == 0 || (s.cursor.line_idx < line_count(t)
            && char_boundary(line_of(t, s.cursor.line_idx as int), s.cursor.byte_col_idx as int)),
        CursorMove::Right { count } => s.cursor.line_idx < line_count(t) && char_boundary(
            line_of(t, s.cursor.line_idx as int),
            s.cursor.byte_col_idx as int,
        ),
        _ => true,
    }
}

/// A command-line cursor moved by a motion stays at a character boundary.
pub proof fn lemma_step_boundary(l: Seq<char>, c: int, mv: CursorMove)
    requires
        char_boundary(l, c),
    ensures
        match mv {
            CursorMove::Left { count } => char_boundary(l, left_col(l, c, count as int)),
            CursorMove::Right { count } => char_boundary(l, right_col(l, c, count as int)),
            _ => true,
        },
{
    let k = chars_within(l, c) as int;
    let j = choose|j: int| 0 <= j <= l.len() && utf8_len(l.take(j)) == c;
    lemma_chars_within_boundary(l, j);
    assert(l.take(0) =~= Seq::<char>::empty());
    assert(l.take(l.len() as int) =~= l);
    match mv {
        CursorMove::Left { count } => {
            if count <= k {
                assert(0 <= k - count <= l.len());
            } else {
                assert(utf8_len(l.take(0)) == 0);
            }
        },
        CursorMove::Right { count } => {
            if k + count < l.len() {
                assert(0 <= k + count <= l.len());
            } else {
                assert(utf8_len(l.take(l.len() as int)) == utf8_len(l));
            }
        },
        _ => {},
    }
}

/// The end of what deleting forward at `c` removes: the end of the next
/// character, or at the end of the line the start of the next line.
pub open spec fn forward_end(c: BufferPosition, t: Seq<char>) -> BufferPosition {
    let lo = line_of(t, c.line_idx as int);
    let k = chars_within(lo, c.byte_col_idx as int) as int;
    if k < lo.len() {
        BufferPosition { byte_col_idx: (c.byte_col_idx + char_len(lo[k])) as usize, ..c }
    } else {
        BufferPosition { line_idx: (c.line_idx + 1) as usize, byte_col_idx: 0 }
    }
}

/// The start of what deleting backward at `c` removes: the start of the
/// previous character, or at the start of a line the end of the line above.
pub open spec fn backward_start(c: BufferPosition, t: Seq<char>) -> BufferPosition {
    let lo = line_of(t, c.line_idx as int);
    let k = chars_within(lo, c.byte_col_idx as int) as int;
    if k > 0 {
        BufferPosition { byte_col_idx: (c.byte_col_idx - char_len(lo[k - 1])) as usize, ..c }
    } else if c.line_idx != 0 {
        BufferPosition {
            line_idx: (c.line_idx - 1) as usize,
            byte_col_idx: utf8_len(line_of(t, c.line_idx - 1)) as usize,
        }
    } else {
        c
    }
}

/// Where an edit that went through leaves the cursor, before clamping.
pub open spec fn edit_cursor(edit: EditAction, c: BufferPosition, t: Seq<char>) -> BufferPosition {
    match edit {
        EditAction::InsertText(text) => BufferPosition {
            byte_col_idx: (c.byte_col_idx + utf8_len(text@)) as usize,
            ..c
        },
        EditAction::DeleteCharBackward => backward_start(c, t),
        EditAction::NewLine => BufferPosition { line_idx: (c.line_idx + 1) as usize, byte_col_idx: 0 },
        _ => c,
    }
}

/// What an edit at pane state `s` needs: the buffer calls it makes do not
/// fail on the machine's limits or on a position inside a character, and the
/// lines it reads exist.
pub open spec fn edit_ok(s: PaneState, edit: EditAction, buffers: &BufferPlugin) -> bool {
    let b = s.buffer_id;
    let c = s.cursor;
    let t = buffers.get(b).text();
    let deletable = in_line(s, buffers) && buffers.get(b).head() + 1 < usize::MAX;
    match edit {
        EditAction::InsertText(text) => c.byte_col_idx + utf8_len(text@) <= usize::MAX && (buffers.has(b)
            ==> buffers.get(b).head() + 1 < usize::MAX && (position_byte(t, c) matches Some(x)
            ==> char_boundary(t, x))),
        EditAction::NewLine => c.line_idx < usize::MAX && c.byte_col_idx < usize::MAX && (buffers.has(b)
            ==> buffers.get(b).head() + 1 < usize::MAX && (position_byte(t, c) matches Some(x)
            ==> char_boundary(t, x))),
        EditAction::DeleteCharForward => deletable,
        EditAction::DeleteCharBackward => deletable,
        EditAction::Undo => true,
        EditAction::Redo => true,
        _ => buffers.has(b),
    }
}

/// The error of the buffer call that an edit makes, if it failed: `ri` is
/// the result of an insertion, undo or redo, `rr` that of a removal.
pub open spec fn call_error(edit: EditAction, ri: Result<(), String>, rr: Result<String, String>) -> Option<String> {
    match edit {
        EditAction::InsertText(_) | EditAction::NewLine | EditAction::Undo | EditAction::Redo => match ri {
            Err(e) => Some(e),
            Ok(_) => None,
        },
        EditAction::DeleteCharForward | EditAction::DeleteCharBackward => match rr {
            Err(e) => Some(e),
            Ok(_) => None,
        },
        _ => None,
    }
}

/// What an edit does at the focused pane `s`, with id `id`: the buffer call
/// it makes takes the buffers from `old_b` to `new_b` and the bus from
/// `old_reg` to `mid_reg`, returning `ri` or `rr`; a failed call is passed
/// on, otherwise the cursor moves, the panes on the buffer are clamped and a
/// redraw is requested.
pub open spec fn edit_outcome<H, S, C, R>(
    old_m: &ModalPlugin,
    new_m: &ModalPlugin,
    old_b: &BufferPlugin,
    new_b: &BufferPlugin,
    old_reg: Registry<H, S, C, R>,
    mid_reg: Registry<H, S, C, R>,
    new_reg: Registry<H, S, C, R>,
    s: PaneState,
    id: PaneId,
    edit: EditAction,
    r: Result<(), String>,
    ri: Result<(), String>,
    rr: Result<String, String>,
) -> bool {
    let b = s.buffer_id;
    let c = s.cursor;
    let t = old_b.get(b).text();
    let key = old_m.spec_key();
    let m = PaneState { cursor: edit_cursor(edit, c, t), ..s };
    &&& match edit {
        EditAction::InsertText(text) => insert_outcome(old_b, new_b, old_reg, mid_reg, b, c, text@, key, ri),
        EditAction::NewLine => insert_outcome(old_b, new_b, old_reg, mid_reg, b, c, seq!['\n'], key, ri),
        EditAction::DeleteCharForward => remove_outcome(old_b, new_b, old_reg, mid_reg, b, c, forward_end(c, t), key, rr),
        EditAction::DeleteCharBackward => remove_outcome(old_b, new_b, old_reg, mid_reg, b, backward_start(c, t), c, key, rr),
        EditAction::Undo => history_outcome(old_b, new_b, old_reg, mid_reg, b, false, ri),
        EditAction::Redo => history_outcome(old_b, new_b, old_reg, mid_reg, b, true, ri),
        _ => *new_b == *old_b && mid_reg == old_reg,
    }
    &&& call_error(edit, ri, rr) matches Some(e) ==> r == Err::<(), String>(e) && *new_m == *old_m
        && new_reg == mid_reg
    &&& call_error(edit, ri, rr) is None ==> {
        &&& r is Ok
        &&& new_m.same_but_panes(old_m)
        &&& new_m.panes() == clamp_panes(set_pane(old_m.panes(), id, m), Some(m), old_m.spec_mode(), new_b)
        &&& consumable_queued(mid_reg, new_reg, "request_redraw"@, ValueModel::Null, "priority"@)
    }
}

/// Removing from `a` to `b` in `t` is possible: both positions are within
/// the text, at character boundaries, in order.
pub open spec fn removable(t: Seq<char>, a: BufferPosition, b: BufferPosition) -> bool {
    &&& position_byte(t, a) is Some
    &&& position_byte(t, b) is Some
    &&& char_boundary(t, position_byte(t, a)->0)
    &&& char_boundary(t, position_byte(t, b)->0)
    &&& position_byte(t, a)->0 <= position_byte(t, b)->0
}

/// The cursor's line exists and the cursor is at a character boundary of it.
pub open spec fn in_line(s: PaneState, buffers: &BufferPlugin) -> bool {
    let t = buffers.get(s.buffer_id).text();
    &&& buffers.has(s.buffer_id)
    &&& s.cursor.line_idx < line_count(t)
    &&& char_boundary(line_of(t, s.cursor.line_idx as int), s.cursor.byte_col_idx as int)
}

/// Whether the pane's cursor stands on a line of its buffer, at a character
/// boundary of it.
fn cursor_in_line(s: &PaneState, buffers: &BufferPlugin) -> (b: bool)
    requires
        buffers.wf(),
        buffers.has(s.buffer_id),
    ensures
        b == in_line(*s, buffers),
{
    if s.cursor.line_idx >= s.len_lines(buffers) {
        return false;
    }
    match s.line(buffers, s.cursor.line_idx) {
        Some(l) => {
            let _ = str_len_bytes(l.as_str());
            let cs = str_chars(l.as_str());
            char_index_at(&cs, s.cursor.byte_col_idx).is_some()
        },
        None => false,
    }
}

/// Whether an insertion at the pane's cursor fits: where its buffer is open,
/// a snapshot can be recorded and the cursor's byte, if it lies within the
/// text, falls between two characters.
fn insertion_fits(s: &PaneState, buffers: &BufferPlugin) -> (b: bool)
    requires
        buffers.wf(),
    ensures
        b == (buffers.has(s.buffer_id) ==> buffers.get(s.buffer_id).head() + 1 < usize::MAX && (
        position_byte(buffers.get(s.buffer_id).text(), s.cursor) matches Some(x) ==> char_boundary(
            buffers.get(s.buffer_id).text(),
            x,
        ))),
{
    match buffers.get_buffer(s.buffer_id) {
        Err(_) => true,
        Ok(bf) => {
            proof {
                buffers.lemma_get_wf(s.buffer_id);
            }
            if !bf.history_has_room() {
                return false;
            }
            match bf.convert_position(s.cursor) {
                Ok(x) => bf.is_char_boundary(x),
                Err(_) => true,
            }
        },
    }
}

/// Computes `forward_end` at a pane's cursor.
fn forward_end_of(st: &PaneState, buffers: &BufferPlugin) -> (e: BufferPosition)
    requires
        buffers.wf(),
        in_line(*st, buffers),
    ensures
        e == forward_end(st.cursor, buffers.get(st.buffer_id).text()),
        removable(buffers.get(st.buffer_id).text(), st.cursor, e),
{
    let c = st.cursor;
    let ghost t = buffers.get(st.buffer_id).text();
    let ghost lo = line_of(t, c.line_idx as int);
    let _count = st.len_lines(buffers);
    let line = match st.line(buffers, c.line_idx) {
        Some(l) => l,
        None => String::new(),
    };
    let _len = str_len_bytes(line.as_str());
    let cs = str_chars(line.as_str());
    let k = match char_index_at(&cs, c.byte_col_idx) {
        Some(k) => k,
        None => 0,
    };
    proof {
        lemma_chars_within_boundary(lo, k as int);
        lemma_line_pos(t, c.line_idx as int, k as int);
    }
    if k < cs.len() {
        proof {
            lemma_utf8_len_prefix(lo, k as int);
            lemma_utf8_len_prefix(lo, k + 1);
            lemma_line_pos(t, c.line_idx as int, k + 1);
        }
        BufferPosition { line_idx: c.line_idx, byte_col_idx: c.byte_col_idx + char_len_utf8(cs[k]) }
    } else {
        BufferPosition { line_idx: c.line_idx + 1, byte_col_idx: 0 }
    }
}

/// Computes `backward_start` at a pane's cursor.
fn backward_start_of(st: &PaneState, buffers: &BufferPlugin) -> (a: BufferPosition)
    requires
        buffers.wf(),
        in_line(*st, buffers),
    ensures
        a == backward_start(st.cursor, buffers.get(st.buffer_id).text()),
        removable(buffers.get(st.buffer_id).text(), a, st.cursor),
{
    let c = st.cursor;
    let ghost t = buffers.get(st.buffer_id).text();
    let ghost lo = line_of(t, c.line_idx as int);
    let line = match st.line(buffers, c.line_idx) {
        Some(l) => l,
        None => String::new(),
    };
    let _len = str_len_bytes(line.as_str());
    let cs = str_chars(line.as_str());
    let k = match char_index_at(&cs, c.byte_col_idx) {
        Some(k) => k,
        None => 0,
    };
    proof {
        lemma_chars_within_boundary(lo, k as int);
        lemma_line_pos(t, c.line_idx as int, k as int);
    }
    if k > 0 {
        proof {
            lemma_utf8_len_prefix(lo, k - 1);
            lemma_line_pos(t, c.line_idx as int, k - 1);
        }
        BufferPosition { line_idx: c.line_idx, byte_col_idx: c.byte_col_idx - char_len_utf8(cs[k - 1]) }
    } else if c.line_idx != 0 {
        let n = match st.line_len_bytes(buffers, c.line_idx - 1) {
            Some(n) => n,
            None => 0,
        };
        proof {
            let lp = line_of(t, c.line_idx - 1);
            assert(lp.take(lp.len() as int) =~= lp);
            lemma_line_pos(t, c.line_idx - 1, lp.len() as int);
        }
        BufferPosition { line_idx: c.line_idx - 1, byte_col_idx: n }
    } else {
        c
    }
}

/// The characters that a command-line action inserts.
pub open spec fn inserted(action: CommandLineAction) -> Seq<char> {
    match action {
        CommandLineAction::AddChar(c) => seq![c],
        CommandLineAction::InsertText(t) => t@,
        _ => Seq::empty(),
    }
}

/// A command-line action that deletes backward.
pub open spec fn deletes_backward(action: CommandLineAction) -> bool {
    action is Backspace || action is DeleteCharBackward
}

/// The command line and its cursor after an action, other than a backward
/// deletion, on line `l` with cursor `c`.
pub open spec fn command_line_after(action: CommandLineAction, l: Seq<char>, c: int) -> (Seq<char>, int) {
    let k = chars_within(l, c) as int;
    match action {
        CommandLineAction::AddChar(_) | CommandLineAction::InsertText(_) => (
            l.take(k) + inserted(action) + l.skip(k),
            c + utf8_len(inserted(action)),
        ),
        CommandLineAction::DeleteCharForward => (l.take(k) + l.skip(k + 1), c),
        _ => (Seq::empty(), 0),
    }
}

/// Inserting at a character boundary keeps the cursor, moved past the
/// insertion, at a boundary, and the length adds up.
pub proof fn lemma_insert_boundary(l: Seq<char>, k: int, ins: Seq<char>)
    requires
        0 <= k <= l.len(),
    ensures
        char_boundary(l.take(k) + ins + l.skip(k), (utf8_len(l.take(k)) + utf8_len(ins)) as int),
        utf8_len(l.take(k) + ins + l.skip(k)) == utf8_len(l) + utf8_len(ins),
{
    let n = l.take(k) + ins + l.skip(k);
    assert(n.take(k + ins.len()) =~= l.take(k) + ins);
    crate::text::lemma_utf8_len_append(l.take(k), ins);
    crate::text::lemma_utf8_len_append(l.take(k) + ins, l.skip(k));
    crate::text::lemma_utf8_len_append(l.take(k), l.skip(k));
    assert(l.take(k) + l.skip(k) =~= l);
}

/// Deleting the character at a boundary keeps the cursor at a boundary, and
/// shortens the text.
pub proof fn lemma_delete_boundary(l: Seq<char>, k: int)
    requires
        0 <= k < l.len(),
    ensures
        char_boundary(l.take(k) + l.skip(k + 1), utf8_len(l.take(k)) as int),
        utf8_len(l.take(k) + l.skip(k + 1)) <= utf8_len(l),
{
    let n = l.take(k) + l.skip(k + 1);
    assert(n.take(k) =~= l.take(k));
    crate::text::lemma_utf8_len_append(l.take(k), l.skip(k + 1));
    crate::text::lemma_utf8_len_append(l.take(k + 1), l.skip(k + 1));
    assert(l.take(k + 1) + l.skip(k + 1) =~= l);
    lemma_utf8_len_mono(l, k, k + 1);
}

/// The bus after the command that executing line `l` calls: its first word
/// names the command and the others are its arguments; a blank line calls
/// none.
pub open spec fn executed<H, S, C, R>(
    old: Registry<H, S, C, R>,
    new: Registry<H, S, C, R>,
    l: Seq<char>,
) -> bool {
    if words(l).len() > 0 {
        command_queued(old, new, words(l)[0], words(l).skip(1))
    } else {
        new == old
    }
}

/// The lower-case name of a mode.
pub open spec fn mode_name(mode: Mode) -> Seq<char> {
    match mode {
        Mode::Normal => "normal"@,
        Mode::Insert => "insert"@,
        Mode::Command => "command"@,
    }
}

/// The value that announces a mode: its lower-case name.
pub open spec fn mode_value(mode: Mode) -> ValueModel {
    ValueModel::Str(mode_name(mode))
}

pub fn mode_to_value(mode: Mode) -> (v: Value)
    ensures
        v@ == mode_value(mode),
{
    Value::Str(mode.name().to_owned())
}

/// What switching to `mode` does. Entering insert mode with a focused pane
/// locks its buffer (`rl` is what locking returned; a failure is passed on)
/// and keeps the key; leaving it unlocks the buffer with the kept key (`ru`).
/// Leaving command mode clears the command line. Then the panes on the
/// focused buffer are clamped, the mode is announced and a redraw asked for,
/// the announcement taking the bus to `mid`.
pub open spec fn set_mode_outcome<H, S, C, R>(
    old_m: &ModalPlugin,
    new_m: &ModalPlugin,
    old_b: &BufferPlugin,
    new_b: &BufferPlugin,
    old_reg: Registry<H, S, C, R>,
    new_reg: Registry<H, S, C, R>,
    mode: Mode,
    r: Result<(), String>,
    rl: Result<LockToken, String>,
    ru: Result<(), String>,
    mid: Registry<H, S, C, R>,
) -> bool {
    let om = old_m.spec_mode();
    let entering = !(om is Insert) && mode is Insert;
    let leaving = om is Insert && !(mode is Insert);
    let a = old_m.active_state();
    let locking = entering && a is Some;
    let key = if locking && rl is Ok {
        Some(rl->Ok_0)
    } else {
        old_m.spec_key()
    };
    &&& locking ==> lock_outcome(old_b, new_b, a->0.buffer_id, rl)
    &&& leaving && a is Some ==> unlock_outcome(old_b, new_b, a->0.buffer_id, old_m.spec_key()->0, ru)
        && ru is Ok
    &&& !(a is Some && (entering || leaving)) ==> *new_b == *old_b
    &&& locking && rl is Err ==> r == Err::<(), String>(rl->Err_0) && *new_m == *old_m && new_reg
        == old_reg
    &&& !(locking && rl is Err) ==> {
        &&& r is Ok
        &&& new_m.spec_mode() == mode
        &&& new_m.spec_key() == key
        &&& new_m.spec_active() == old_m.spec_active()
        &&& if om is Command && !(mode is Command) {
            new_m.spec_command_line().len() == 0 && new_m.spec_command_cursor() == 0
        } else {
            new_m.spec_command_line() == old_m.spec_command_line() && new_m.spec_command_cursor()
                == old_m.spec_command_cursor()
        }
        &&& new_m.panes() == clamp_panes(old_m.panes(), a, mode, new_b)
        &&& broadcast_queued(old_reg, mid, "mode_changed"@, mode_value(mode))
        &&& consumable_queued(mid, new_reg, "request_redraw"@, ValueModel::Null, "priority"@)
    }
}

/// `panes` with the pane of id `id` set to `p`: replaced where present,
/// else added at the end.
pub open spec fn upsert(panes: Seq<(PaneId, PaneState)>, id: PaneId, p: PaneState) -> Seq<
    (PaneId, PaneState),
> {
    if pane_of(panes, id) is Some {
        set_pane(panes, id, p)
    } else {
        panes.push((id, p))
    }
}

/// The payload that asks for the command line's floating window.
pub open spec fn command_window_model() -> ValueModel {
    ValueModel::Dict(
        seq![
            ("float_window_handler"@, ValueModel::Str("cmdline"@)),
            ("pane_handler"@, ValueModel::Str("cmdline"@)),
        ],
    )
}

/// The message of a request for a pane that the editor does not have.
pub open spec fn missing_pane_msg(id: PaneId) -> Seq<char> {
    "modal don't have pane: PaneId("@ + decimal(id.0 as nat) + ")"@
}

/// `panes` with the pane of id `id` replaced by `p`.
pub open spec fn set_pane(panes: Seq<(PaneId, PaneState)>, id: PaneId, p: PaneState) -> Seq<
    (PaneId, PaneState),
> {
    panes.map_values(
        |e: (PaneId, PaneState)|
            if e.0 == id {
                (id, p)
            } else {
                e
            },
    )
}

pub proof fn lemma_set_pane(panes: Seq<(PaneId, PaneState)>, i: int, p: PaneState)
    requires
        ids_distinct(panes),
        0 <= i < panes.len(),
    ensures
        panes.update(i, (panes[i].0, p)) == set_pane(panes, panes[i].0, p),
        ids_distinct(set_pane(panes, panes[i].0, p)),
        pane_of(set_pane(panes, panes[i].0, p), panes[i].0) == Some(p),
{
    let id = panes[i].0;
    let n = set_pane(panes, id, p);
    assert forall|j: int| 0 <= j < panes.len() && j != i implies panes[j].0 != id by {
        if j < i {
            assert(panes[j].0 != panes[i].0);
        } else {
            assert(panes[i].0 != panes[j].0);
        }
    }
    assert(panes.update(i, (id, p)) =~= n);
    assert forall|a: int, b: int| 0 <= a < b < n.len() implies n[a].0 != n[b].0 by {
        assert(panes[a].0 != panes[b].0);
    }
    lemma_pane_at(n, i);
}

/// The view's first row after scrolling so that row `line` shows in a view
/// `h` rows high.
pub open spec fn scrolled_row(top: int, line: int, h: int) -> int {
    let a = if line < top {
        line
    } else {
        top
    };
    if a + h <= line {
        line - (h - 1)
    } else {
        a
    }
}

/// The view's first column after scrolling so that the columns `l` to `r`
/// show in a view `w` columns wide.
pub open spec fn scrolled_col(left: int, l: int, r: int, w: int) -> int {
    let a = if l <= left {
        l
    } else {
        left
    };
    if a + w < r {
        r - w
    } else {
        a
    }
}

/// The columns before the cursor on its line, and up to the end of the
/// character under it.
pub open spec fn cursor_cols(line: Seq<char>, col: int) -> (int, int) {
    let k = chars_within(line, col) as int;
    let l = str_width(line.take(k)) as int;
    (l, l + if k < line.len() {
        col_width(line[k]) as int
    } else {
        0
    })
}

/// The view offset after scrolling the pane to its cursor in a view of
/// `size` cells.
pub open spec fn scrolled(s: PaneState, size: (u16, u16), t: Seq<char>) -> (usize, usize) {
    let c = s.cursor;
    let cc = cursor_cols(line_of(t, c.line_idx as int), c.byte_col_idx as int);
    (
        scrolled_col(s.view_offset.0 as int, cc.0, cc.1, size.0 as int) as usize,
        scrolled_row(s.view_offset.1 as int, c.line_idx as int, size.1 as int) as usize,
    )
}

/// What rendering a pane draws: the rows of its view, then, outside command
/// mode, the cursor.
pub open spec fn rendered(s: PaneState, mode: Mode, size: (u16, u16), t: Seq<char>) -> Seq<CommandModel> {
    let vo = scrolled(s, size, t);
    let first = vo.1 as int;
    let end = if first + size.1 < line_count(t) {
        first + size.1
    } else {
        line_count(t) as int
    };
    let n = if first < end {
        end - first
    } else {
        0
    };
    let rows = Seq::new(
        n as nat,
        |j: int|
            CommandModel::Str(
                (0u16, j as u16),
                trimmed(line_of(t, first + j), vo.0 as int, vo.0 + size.0).0,
            ),
    );
    let cc = cursor_cols(line_of(t, s.cursor.line_idx as int), s.cursor.byte_col_idx as int);
    let x = if cc.0 >= vo.0 {
        cc.0 - vo.0
    } else {
        0
    };
    let y = if s.cursor.line_idx >= vo.1 {
        s.cursor.line_idx - vo.1
    } else {
        0
    };
    match mode {
        Mode::Normal => rows.push(CommandModel::Cursor((x as u16, y as u16), CursorStyle::SteadyBlock)),
        Mode::Insert => rows.push(CommandModel::Cursor((x as u16, y as u16), CursorStyle::SteadyBar)),
        Mode::Command => rows,
    }
}

/// Rendering a pane stays within the machine's integers and reads only
/// what exists: the cursor's line exists, the cursor stands at a character
/// boundary of it, the view has a row, and the columns counted fit.
pub open spec fn render_ok(s: PaneState, size: (u16, u16), buffers: &BufferPlugin) -> bool {
    let t = buffers.get(s.buffer_id).text();
    let line = line_of(t, s.cursor.line_idx as int);
    let cc = cursor_cols(line, s.cursor.byte_col_idx as int);
    let vo = scrolled(s, size, t);
    &&& buffers.has(s.buffer_id)
    &&& s.cursor.line_idx < line_count(t)
    &&& char_boundary(line, s.cursor.byte_col_idx as int)
    &&& size.1 >= 1
    &&& cc.1 <= usize::MAX
    &&& vo.1 + size.1 <= usize::MAX
    &&& vo.0 + size.0 <= usize::MAX
    &&& forall|j: int| 0 <= j < line_count(t) ==> cols(#[trigger] line_of(t, j)) <= usize::MAX
}

impl PaneState {
    /// Scrolls the view to the cursor and draws the pane: see `rendered`.
    pub fn render(&mut self, mode: Mode, size: (u16, u16), buffers: &BufferPlugin) -> (r: Result<
        Vec<DrawCommand>,
        String,
    >)
        requires
            buffers.wf(),
            render_ok(*old(self), size, buffers),
        ensures
            final(self).buffer_id == old(self).buffer_id,
            final(self).cursor == old(self).cursor,
            final(self).view_offset == scrolled(*old(self), size, buffers.get(old(self).buffer_id).text()),
            r matches Ok(v) && v@.len() == rendered(*old(self), mode, size, buffers.get(old(self).buffer_id).text()).len()
                && forall|i: int| 0 <= i < v@.len() ==> #[trigger] v@[i]@ == rendered(
                *old(self),
                mode,
                size,
                buffers.get(old(self).buffer_id).text(),
            )[i],
    {
        let ghost t = buffers.get(self.buffer_id).text();
        let ghost s0 = *self;
        let w = size.0 as usize;
        let h = size.1 as usize;
        let cursor = self.cursor;
        let cursor_line = match self.line(buffers, cursor.line_idx) {
            Some(l) => l,
            None => String::new(),
        };
        let _len = crate::text::str_len_bytes(cursor_line.as_str());
        if cursor.line_idx < self.view_offset.1 {
            self.view_offset.1 = cursor.line_idx;
        }
        if self.view_offset.1 + h <= cursor.line_idx {
            self.view_offset.1 = cursor.line_idx - (h - 1);
        }
        let cs = str_chars(cursor_line.as_str());
        let k = match char_index_at(&cs, cursor.byte_col_idx) {
            Some(k) => k,
            None => 0,
        };
        proof {
            lemma_chars_within_boundary(cs@, k as int);
        }
        let left = string_from_chars(slice_prefix(&cs, k).as_slice());
        let col_l = crate::screen::width_of_str(left.as_str());
        let next = if k < cs.len() {
            match crate::screen::width_of_char(cs[k]) {
                Some(x) => x,
                None => 0,
            }
        } else {
            0
        };
        let col_r = col_l + next;
        if col_l <= self.view_offset.0 {
            self.view_offset.0 = col_l;
        }
        if self.view_offset.0 + w < col_r {
            self.view_offset.0 = col_r - w;
        }
        let vo = self.view_offset;
        let lines = match buffers.lines(self.buffer_id, vo.1, vo.1 + h) {
            Ok(v) => v,
            Err(_) => Vec::new(),
        };
        let mut commands: Vec<DrawCommand> = Vec::new();
        let mut row: usize = 0;
        while row < lines.len()
            invariant
                row <= lines@.len(),
                lines@.len() <= h,
                commands@.len() == row,
                forall|j: int| 0 <= j < lines@.len() ==> #[trigger] lines@[j]@ == line_of(t, vo.1 + j),
                forall|j: int| 0 <= j < line_count(t) ==> cols(#[trigger] line_of(t, j)) <= usize::MAX,
                vo.1 + lines@.len() <= line_count(t),
                vo.0 + w <= usize::MAX,
                h <= u16::MAX,
                forall|j: int| 0 <= j < row ==> #[trigger] commands@[j]@ == CommandModel::Str(
                    (0u16, j as u16),
                    trimmed(line_of(t, vo.1 + j), vo.0 as int, vo.0 + w).0,
                ),
            decreases lines@.len() - row,
        {
            assert(cols(line_of(t, vo.1 + row)) <= usize::MAX);
            let text = trim_display_range(lines[row].as_str(), vo.0, vo.0 + w);
            commands.push(DrawCommand::DrawString { position: (0, row as u16), text });
            row = row + 1;
        }
        let x = if col_l >= vo.0 {
            col_l - vo.0
        } else {
            0
        };
        let y = if cursor.line_idx >= vo.1 {
            cursor.line_idx - vo.1
        } else {
            0
        };
        match mode {
            Mode::Normal => commands.push(
                DrawCommand::SetCursor { position: (x as u16, y as u16), style: CursorStyle::SteadyBlock },
            ),
            Mode::Insert => commands.push(
                DrawCommand::SetCursor { position: (x as u16, y as u16), style: CursorStyle::SteadyBar },
            ),
            Mode::Command => {},
        }
        Ok(commands)
    }
}

/// The first `k` characters.
pub(crate) fn slice_prefix(cs: &Vec<char>, k: usize) -> (r: Vec<char>)
    requires
        k <= cs@.len(),
    ensures
        r@ == cs@.take(k as int),
{
    let e: [char; 0] = [];
    crate::text::splice_chars(cs, k, cs.len(), &e)
}

/// The file that the `e` command opens: its first argument, or, without
/// one, the current buffer's file, where it has one (`None`: nothing to
/// open). `current` is asked for only without an argument.
pub fn edit_target(args: &Vec<String>, current: Option<String>) -> (r: Option<String>)
    ensures
        args@.len() > 0 ==> (r matches Some(p) && p@ == args@[0]@),
        args@.len() == 0 ==> r == current,
{
    if args.len() > 0 {
        Some(args[0].as_str().to_owned())
    } else {
        current
    }
}

/// The modal editor: its mode, its command line with a byte cursor, its
/// panes, the focused pane and the key of the buffer it locked.
pub struct ModalPlugin {
    mode: Mode,
    command_line: Vec<char>,
    command_line_cursor: usize,
    panes: Vec<(PaneId, PaneState)>,
    active_pane: Option<PaneId>,
    key_holder: Option<LockToken>,
}

/// The pane with id `id` among `panes`.
pub open spec fn pane_of(panes: Seq<(PaneId, PaneState)>, id: PaneId) -> Option<PaneState> {
    if exists|i: int| 0 <= i < panes.len() && panes[i].0 == id {
        Some(panes[choose|i: int| 0 <= i < panes.len() && panes[i].0 == id].1)
    } else {
        None
    }
}

/// Pane ids are unique.
pub open spec fn ids_distinct(panes: Seq<(PaneId, PaneState)>) -> bool {
    forall|i: int, j: int| 0 <= i < j < panes.len() ==> panes[i].0 != panes[j].0
}

pub proof fn lemma_pane_at(panes: Seq<(PaneId, PaneState)>, i: int)
    requires
        ids_distinct(panes),
        0 <= i < panes.len(),
    ensures
        pane_of(panes, panes[i].0) == Some(panes[i].1),
{
    let id = panes[i].0;
    let j = choose|j: int| 0 <= j < panes.len() && panes[j].0 == id;
    if j < i {
        assert(panes[j].0 != panes[i].0);
    } else if i < j {
        assert(panes[i].0 != panes[j].0);
    }
}

/// A pane with its cursor clamped when it shows buffer `b`.
pub open spec fn clamp_pane(p: PaneState, b: BufferId, mode: Mode, t: Seq<char>) -> PaneState {
    if p.buffer_id == b {
        PaneState { cursor: clamp(p.cursor, mode, t), ..p }
    } else {
        p
    }
}

impl ModalPlugin {
    pub closed spec fn spec_mode(&self) -> Mode {
        self.mode
    }

    /// The characters of the command line.
    pub closed spec fn spec_command_line(&self) -> Seq<char> {
        self.command_line@
    }

    /// The command line's cursor, a byte offset.
    pub closed spec fn spec_command_cursor(&self) -> usize {
        self.command_line_cursor
    }

    /// The panes with their ids, in the order in which they were attached.
    pub closed spec fn panes(&self) -> Seq<(PaneId, PaneState)> {
        self.panes@
    }

    pub closed spec fn spec_active(&self) -> Option<PaneId> {
        self.active_pane
    }

    /// The key of the buffer that the editor locked on entering insert mode.
    pub closed spec fn spec_key(&self) -> Option<LockToken> {
        self.key_holder
    }

    /// The focused pane's state.
    pub open spec fn active_state(&self) -> Option<PaneState> {
        match self.spec_active() {
            Some(id) => pane_of(self.panes(), id),
            None => None,
        }
    }

    /// Pane ids are unique; the command line's cursor is at a character
    /// boundary and its length fits in memory.
    pub open spec fn wf(&self) -> bool {
        &&& ids_distinct(self.panes())
        &&& char_boundary(self.spec_command_line(), self.spec_command_cursor() as int)
        &&& utf8_len(self.spec_command_line()) <= usize::MAX
    }

    /// Normal mode, an empty command line and no pane.
    pub fn new() -> (m: Self)
        ensures
            m.wf(),
            m.spec_mode() is Normal,
            m.spec_command_line().len() == 0,
            m.spec_command_cursor() == 0,
            m.panes().len() == 0,
            m.spec_active() is None,
            m.spec_key() is None,
    {
        let m = ModalPlugin {
            mode: Mode::Normal,
            command_line: Vec::new(),
            command_line_cursor: 0,
            panes: Vec::new(),
            active_pane: None,
            key_holder: None,
        };
        assert(m.command_line@.take(0) =~= Seq::<char>::empty());
        m
    }

    /// The position of the pane with id `id`.
    fn slot(&self, id: PaneId) -> (r: Option<usize>)
        requires
            ids_distinct(self.panes()),
        ensures
            match r {
                Some(i) => i < self.panes@.len() && self.panes@[i as int].0 == id && pane_of(
                    self.panes(),
                    id,
                ) == Some(self.panes@[i as int].1),
                None => pane_of(self.panes(), id) is None,
            },
    {
        let mut i: usize = 0;
        while i < self.panes.len()
            invariant
                ids_distinct(self.panes@),
                i <= self.panes@.len(),
                forall|j: int| 0 <= j < i ==> self.panes@[j].0 != id,
            decreases self.panes@.len() - i,
        {
            if self.panes[i].0 == id {
                proof {
                    lemma_pane_at(self.panes@, i as int);
                }
                return Some(i);
            }
            i = i + 1;
        }
        None
    }

    /// The position of the focused pane.
    fn active_slot(&self) -> (r: Option<usize>)
        requires
            ids_distinct(self.panes()),
        ensures
            match r {
                Some(i) => i < self.panes@.len() && self.spec_active() == Some(self.panes@[i as int].0)
                    && self.active_state() == Some(self.panes@[i as int].1),
                None => self.active_state() is None,
            },
    {
        match self.active_pane {
            Some(id) => self.slot(id),
            None => None,
        }
    }

    /// Clamps the cursors of the panes that show the focused pane's buffer.
    fn clamp_cursor(&mut self, buffers: &BufferPlugin)
        requires
            ids_distinct(old(self).panes()),
            buffers.wf(),
            old(self).active_state() matches Some(s) ==> buffers.has(s.buffer_id),
        ensures
            final(self).spec_mode() == old(self).spec_mode(),
            final(self).spec_command_line() == old(self).spec_command_line(),
            final(self).spec_command_cursor() == old(self).spec_command_cursor(),
            final(self).spec_active() == old(self).spec_active(),
            final(self).spec_key() == old(self).spec_key(),
            final(self).panes() == clamp_panes(old(self).panes(), old(self).active_state(),
                old(self).spec_mode(), buffers),
    {
        let i = match self.active_slot() {
            Some(i) => i,
            None => {
                assert(self.panes@ =~= clamp_panes(self.panes@, None, self.mode, buffers));
                return;
            },
        };
        let changed = self.panes[i].1.buffer_id;
        let ghost before = self.panes@;
        let mode = self.mode;
        let ghost cl = self.command_line@;
        let ghost cc = self.command_line_cursor;
        let ghost active = self.active_pane;
        let ghost key = self.key_holder;
        let mut j: usize = 0;
        while j < self.panes.len()
            invariant
                self.command_line@ == cl,
                self.command_line_cursor == cc,
                self.active_pane == active,
                self.key_holder == key,
                buffers.wf(),
                buffers.has(changed),
                self.mode == mode,
                self.panes@.len() == before.len(),
                j <= before.len(),
                forall|k: int| 0 <= k < j ==> #[trigger] self.panes@[k] == (before[k].0, clamp_pane(
                    before[k].1, changed, mode, buffers.get(changed).text())),
                forall|k: int| j <= k < before.len() ==> #[trigger] self.panes@[k] == before[k],
            decreases before.len() - j,
        {
            let (id, mut state) = self.panes[j];
            if state.buffer_id == changed {
                state.clamp_cursor(mode, buffers);
            }
            self.panes.set(j, (id, state));
            j = j + 1;
        }
        assert(self.panes@ =~= clamp_panes(before, Some(before[i as int].1), mode, buffers));
    }

    /// The fields other than the panes are those of `old`.
    pub open spec fn same_but_panes(&self, old: &Self) -> bool {
        &&& self.spec_mode() == old.spec_mode()
        &&& self.spec_command_line() == old.spec_command_line()
        &&& self.spec_command_cursor() == old.spec_command_cursor()
        &&& self.spec_active() == old.spec_active()
        &&& self.spec_key() == old.spec_key()
    }

    /// Whether `cursor_move` may be called with `mv` on these buffers: see
    /// `motion_ok`.
    pub fn motion_allowed(&self, buffers: &BufferPlugin, mv: CursorMove) -> (b: bool)
        requires
            self.wf(),
            buffers.wf(),
        ensures
            b == (!(self.spec_mode() is Command) ==> (self.active_state() matches Some(s) ==> buffers.has(
                s.buffer_id,
            ) && motion_ok(s, mv, buffers.get(s.buffer_id).text()))),
    {
        if self.mode == Mode::Command {
            return true;
        }
        match self.active_slot() {
            None => true,
            Some(i) => {
                let s = &self.panes[i].1;
                if buffers.get_buffer(s.buffer_id).is_err() {
                    return false;
                }
                match mv {
                    CursorMove::Down { count } => s.cursor.line_idx <= usize::MAX - count,
                    CursorMove::Left { count } => count == 0 || cursor_in_line(s, buffers),
                    CursorMove::Right { .. } => cursor_in_line(s, buffers),
                    _ => true,
                }
            },
        }
    }

    /// Whether `edit` may be called with `edit` on these buffers: see
    /// `edit_ok`.
    pub fn edit_allowed(&self, buffers: &BufferPlugin, edit: &EditAction) -> (b: bool)
        requires
            self.wf(),
            buffers.wf(),
        ensures
            b == (self.active_state() matches Some(s) ==> edit_ok(s, *edit, buffers)),
    {
        match self.active_slot() {
            None => true,
            Some(i) => {
                let s = &self.panes[i].1;
                let c = s.cursor;
                match edit {
                    EditAction::InsertText(text) => {
                        let n = str_len_bytes(text.as_str());
                        c.byte_col_idx <= usize::MAX - n && insertion_fits(s, buffers)
                    },
                    EditAction::NewLine => c.line_idx < usize::MAX && c.byte_col_idx < usize::MAX
                        && insertion_fits(s, buffers),
                    EditAction::DeleteCharForward | EditAction::DeleteCharBackward => {
                        match buffers.get_buffer(s.buffer_id) {
                            Ok(bf) => bf.history_has_room() && cursor_in_line(s, buffers),
                            Err(_) => false,
                        }
                    },
                    EditAction::Undo | EditAction::Redo => true,
                    _ => buffers.get_buffer(s.buffer_id).is_ok(),
                }
            },
        }
    }

    /// Moves the focused pane's cursor, or in command mode the command
    /// line's cursor, and asks for a redraw.
    pub fn cursor_move<H, S, C, R>(
        &mut self,
        reg: &mut Registry<H, S, C, R>,
        buffers: &BufferPlugin,
        mv: CursorMove,
    ) -> (r: Result<(), String>)
        requires
            old(self).wf(),
            buffers.wf(),
            !(old(self).spec_mode() is Command) ==> (old(self).active_state() matches Some(s)
                ==> buffers.has(s.buffer_id) && motion_ok(s, mv, buffers.get(s.buffer_id).text())),
        ensures
            final(self).wf(),
            mv == (CursorMove::Left { count: 0 }) && (old(self).spec_mode() is Command
                || old(self).active_state() is Some) ==> r is Ok && *final(self) == *old(self)
                && *final(reg) == *old(reg),
            old(self).spec_mode() is Command && mv != (CursorMove::Left { count: 0 }) ==> {
                let l = old(self).spec_command_line();
                let c = old(self).spec_command_cursor() as int;
                &&& r is Ok
                &&& final(self).spec_command_cursor() == match mv {
                    CursorMove::Left { count } => left_col(l, c, count as int),
                    CursorMove::Right { count } => right_col(l, c, count as int),
                    _ => c,
                }
                &&& final(self).spec_mode() == old(self).spec_mode()
                &&& final(self).spec_command_line() == l
                &&& final(self).panes() == old(self).panes()
                &&& final(self).spec_active() == old(self).spec_active()
                &&& final(self).spec_key() == old(self).spec_key()
                &&& consumable_queued(*old(reg), *final(reg), "request_redraw"@, ValueModel::Null,
                    "priority"@)
            },
            !(old(self).spec_mode() is Command) && old(self).active_state() is None ==> (r matches Err(
                e,
            ) && e@ == "no active pane"@) && *final(self) == *old(self) && *final(reg) == *old(reg),
            !(old(self).spec_mode() is Command) && mv != (CursorMove::Left { count: 0 }) ==> (old(
                self,
            ).active_state() matches Some(s) ==> {
                let id = old(self).spec_active().unwrap();
                let m = moved(s, mv, buffers.get(s.buffer_id).text());
                &&& r is Ok
                &&& final(self).same_but_panes(&*old(self))
                &&& final(self).panes() == clamp_panes(
                    set_pane(old(self).panes(), id, m),
                    Some(m),
                    old(self).spec_mode(),
                    buffers,
                )
                &&& consumable_queued(*old(reg), *final(reg), "request_redraw"@, ValueModel::Null,
                    "priority"@)
            }),
    {
        match self.mode {
            Mode::Command => {
                match mv {
                    CursorMove::Left { count } => {
                        if count == 0 {
                            return Ok(());
                        }
                        self.command_line_cursor = step_left(&self.command_line, self.command_line_cursor, count);
                    },
                    CursorMove::Right { count } => {
                        self.command_line_cursor = step_right(&self.command_line, self.command_line_cursor, count);
                    },
                    _ => {},
                }
                proof {
                    lemma_step_boundary(self.command_line@, old(self).command_line_cursor as int, mv);
                }
            },
            _ => {
                let i = match self.active_slot() {
                    Some(i) => i,
                    None => return Err("no active pane".to_owned()),
                };
                let (id, mut st) = self.panes[i];
                let ghost t = buffers.get(st.buffer_id).text();
                match mv {
                    CursorMove::Up { count } => {
                        st.cursor.line_idx = if st.cursor.line_idx >= count {
                            st.cursor.line_idx - count
                        } else {
                            0
                        };
                    },
                    CursorMove::Down { count } => {
                        st.cursor.line_idx = st.cursor.line_idx + count;
                    },
                    CursorMove::Left { count } => {
                        if count == 0 {
                            return Ok(());
                        }
                        let line = match st.line(buffers, st.cursor.line_idx) {
                            Some(l) => l,
                            None => String::new(),
                        };
                        let _n = str_len_bytes(line.as_str());
                        let cs = str_chars(line.as_str());
                        st.cursor.byte_col_idx = step_left(&cs, st.cursor.byte_col_idx, count);
                    },
                    CursorMove::Right { count } => {
                        let line = match st.line(buffers, st.cursor.line_idx) {
                            Some(l) => l,
                            None => String::new(),
                        };
                        let _n = str_len_bytes(line.as_str());
                        let cs = str_chars(line.as_str());
                        st.cursor.byte_col_idx = step_right(&cs, st.cursor.byte_col_idx, count);
                    },
                    _ => {},
                }
                proof {
                    lemma_set_pane(self.panes@, i as int, st);
                }
                self.panes.set(i, (id, st));
                self.clamp_cursor(buffers);
            },
        }
        emit_consumable(reg, "request_redraw", Value::Null, "priority");
        Ok(())
    }

    /// Edits the focused pane's buffer at its cursor through the buffer
    /// plugin, then moves the cursor, clamps and asks for a redraw.
    #[verifier::rlimit(40)]
    pub fn edit<H, S, C, R>(
        &mut self,
        reg: &mut Registry<H, S, C, R>,
        buffers: &mut BufferPlugin,
        edit: EditAction,
    ) -> (r: Result<(), String>)
        requires
            old(self).wf(),
            old(buffers).wf(),
            old(self).active_state() matches Some(s) ==> edit_ok(s, edit, &*old(buffers)),
        ensures
            final(self).wf(),
            final(buffers).wf(),
            old(self).active_state() is None ==> (r matches Err(e) && e@ == "no active pane"@)
                && *final(self) == *old(self) && *final(buffers) == *old(buffers) && *final(reg)
                == *old(reg),
            old(self).active_state() matches Some(s) ==> exists|
                mid: Registry<H, S, C, R>,
                ri: Result<(), String>,
                rr: Result<String, String>,
            |
                #[trigger] edit_outcome(
                    &*old(self),
                    &*final(self),
                    &*old(buffers),
                    &*final(buffers),
                    *old(reg),
                    mid,
                    *final(reg),
                    s,
                    old(self).spec_active().unwrap(),
                    edit,
                    r,
                    ri,
                    rr,
                ),
    {
        let key = self.key_holder;
        let i = match self.active_slot() {
            Some(i) => i,
            None => return Err("no active pane".to_owned()),
        };
        let (id, st) = self.panes[i];
        let b = st.buffer_id;
        let c = st.cursor;
        let ghost t = buffers.get(b).text();
        let ghost lo = line_of(t, c.line_idx as int);
        let ghost reg0 = *reg;
        let ghost buf0 = *buffers;
        let ghost me0 = *self;
        let ghost mut ri: Result<(), String> = Ok(());
        let ghost mut rr: Result<String, String> = vstd::pervasive::arbitrary();
        let cursor: BufferPosition = match edit {
            EditAction::InsertText(text) => {
                let n = str_len_bytes(text.as_str());
                let res = buffers.insert(reg, b, c, text, key);
                proof {
                    ri = res;
                }
                match res {
                    Ok(()) => {},
                    Err(e) => {
                        assert(edit_outcome(&me0, &*self, &buf0, &*buffers, reg0, *reg, *reg, st, id, edit, Err(e), ri, rr));
                        return Err(e);
                    },
                }
                BufferPosition { line_idx: c.line_idx, byte_col_idx: c.byte_col_idx + n }
            },
            EditAction::NewLine => {
                let nl = "\n";
                proof {
                    reveal_strlit("\n");
                    lemma_utf8_len_one('\n');
                    assert(nl@ =~= seq!['\n']);
                }
                let res = buffers.insert(reg, b, c, nl.to_owned(), key);
                proof {
                    ri = res;
                }
                match res {
                    Ok(()) => {},
                    Err(e) => {
                        assert(edit_outcome(&me0, &*self, &buf0, &*buffers, reg0, *reg, *reg, st, id, edit, Err(e), ri, rr));
                        return Err(e);
                    },
                }
                BufferPosition { line_idx: c.line_idx + 1, byte_col_idx: 0 }
            },
            EditAction::Undo => {
                let res = buffers.undo(reg, b);
                proof {
                    ri = res;
                }
                match res {
                    Ok(()) => {},
                    Err(e) => {
                        assert(edit_outcome(&me0, &*self, &buf0, &*buffers, reg0, *reg, *reg, st, id, edit, Err(e), ri, rr));
                        return Err(e);
                    },
                }
                c
            },
            EditAction::Redo => {
                let res = buffers.redo(reg, b);
                proof {
                    ri = res;
                }
                match res {
                    Ok(()) => {},
                    Err(e) => {
                        assert(edit_outcome(&me0, &*self, &buf0, &*buffers, reg0, *reg, *reg, st, id, edit, Err(e), ri, rr));
                        return Err(e);
                    },
                }
                c
            },
            EditAction::DeleteCharForward => {
                let end = forward_end_of(&st, buffers);
                let res = buffers.remove(reg, b, c, end, key);
                proof {
                    rr = res;
                }
                match res {
                    Ok(_) => {},
                    Err(e) => {
                        assert(edit_outcome(&me0, &*self, &buf0, &*buffers, reg0, *reg, *reg, st, id, edit, Err(e), ri, rr));
                        return Err(e);
                    },
                }
                c
            },
            EditAction::DeleteCharBackward => {
                let start = backward_start_of(&st, buffers);
                let res = buffers.remove(reg, b, start, c, key);
                proof {
                    rr = res;
                }
                match res {
                    Ok(_) => {},
                    Err(e) => {
                        assert(edit_outcome(&me0, &*self, &buf0, &*buffers, reg0, *reg, *reg, st, id, edit, Err(e), ri, rr));
                        return Err(e);
                    },
                }
                start
            },
            _ => c,
        };
        let ghost mid = *reg;
        let new_state = PaneState { cursor, ..st };
        proof {
            lemma_set_pane(self.panes@, i as int, new_state);
        }
        self.panes.set(i, (id, new_state));
        self.clamp_cursor(buffers);
        emit_consumable(reg, "request_redraw", Value::Null, "priority");
        assert(new_state.cursor == edit_cursor(edit, c, t));
        assert(self.panes@ == clamp_panes(set_pane(me0.panes@, id, new_state), Some(new_state), me0.mode, buffers));
        assert(call_error(edit, ri, rr) is None);
        assert(edit_outcome(&me0, &*self, &buf0, &*buffers, reg0, mid, *reg, st, id, edit, Ok(()), ri, rr));
        Ok(())
    }

    /// Edits or executes the command line, and asks for a redraw. Deleting
    /// backward does nothing.
    pub fn command_line_action<H, S, C, R>(
        &mut self,
        reg: &mut Registry<H, S, C, R>,
        cmd_action: CommandLineAction,
    ) -> (r: Result<(), String>)
        requires
            old(self).wf(),
            cmd_action is AddChar || cmd_action is InsertText ==> utf8_len(old(self).spec_command_line())
                + utf8_len(inserted(cmd_action)) <= usize::MAX,
            cmd_action is DeleteCharForward ==> old(self).spec_command_cursor() != utf8_len(
                old(self).spec_command_line(),
            ),
            deletes_backward(cmd_action) ==> old(self).spec_command_cursor() != 0,
        ensures
            r is Ok,
            final(self).wf(),
            deletes_backward(cmd_action) ==> *final(self) == *old(self) && *final(reg) == *old(reg),
            !deletes_backward(cmd_action) ==> {
                let l = old(self).spec_command_line();
                let after = command_line_after(cmd_action, l, old(self).spec_command_cursor() as int);
                &&& final(self).spec_command_line() == after.0
                &&& final(self).spec_command_cursor() == after.1
                &&& final(self).spec_mode() == if cmd_action is Execute {
                    Mode::Normal
                } else {
                    old(self).spec_mode()
                }
                &&& final(self).panes() == old(self).panes()
                &&& final(self).spec_active() == old(self).spec_active()
                &&& final(self).spec_key() == old(self).spec_key()
                &&& exists|mid: Registry<H, S, C, R>|
                    #[trigger] consumable_queued(mid, *final(reg), "request_redraw"@, ValueModel::Null,
                        "priority"@) && if cmd_action is Execute {
                        executed(*old(reg), mid, l)
                    } else {
                        mid == *old(reg)
                    }
            },
    {
        let cursor = self.command_line_cursor;
        let ghost l = self.command_line@;
        let ghost reg0 = *reg;
        let k = match char_index_at(&self.command_line, cursor) {
            Some(k) => k,
            None => 0,
        };
        proof {
            lemma_chars_within_boundary(l, k as int);
            lemma_utf8_len_mono(l, k as int, l.len() as int);
            assert(l.take(l.len() as int) =~= l);
        }
        match cmd_action {
            CommandLineAction::AddChar(c) => {
                let text = char_to_string(c);
                let ins = str_chars(text.as_str());
                let n = str_len_bytes(text.as_str());
                self.command_line = splice_chars(&self.command_line, k, k, ins.as_slice());
                self.command_line_cursor = cursor + n;
                proof {
                    lemma_insert_boundary(l, k as int, seq![c]);
                }
            },
            CommandLineAction::InsertText(text) => {
                let ins = str_chars(text.as_str());
                let n = str_len_bytes(text.as_str());
                self.command_line = splice_chars(&self.command_line, k, k, ins.as_slice());
                self.command_line_cursor = cursor + n;
                proof {
                    lemma_insert_boundary(l, k as int, text@);
                }
            },
            CommandLineAction::DeleteCharForward => {
                let e: [char; 0] = [];
                proof {
                    lemma_utf8_len_mono(l, k as int, l.len() as int);
                    assert(l.take(l.len() as int) =~= l);
                }
                let _n = self.command_line.len();
                assert(k < self.command_line@.len());
                self.command_line = splice_chars(&self.command_line, k, k + 1, &e);
                proof {
                    lemma_delete_boundary(l, k as int);
                }
            },
            CommandLineAction::Backspace | CommandLineAction::DeleteCharBackward => {
                return Ok(());
            },
            CommandLineAction::Execute => {
                let parsed = split_whitespace(&self.command_line);
                if parsed.len() > 0 {
                    let name = string_from_chars(parsed[0].as_slice());
                    let mut args: Vec<String> = Vec::new();
                    let mut j: usize = 1;
                    while j < parsed.len()
                        invariant
                            1 <= j <= parsed@.len(),
                            parsed@.len() == words(l).len(),
                            forall|x: int| 0 <= x < parsed@.len() ==> #[trigger] parsed@[x]@ == words(l)[x],
                            args@.len() == j - 1,
                            forall|x: int| 0 <= x < args@.len() ==> #[trigger] args@[x]@ == words(l)[x + 1],
                        decreases parsed@.len() - j,
                    {
                        args.push(string_from_chars(parsed[j].as_slice()));
                        j = j + 1;
                    }
                    execute_command(reg, name.as_str(), args.as_slice());
                    assert(args@.map_values(|a: String| a@) =~= words(l).skip(1));
                }
                self.command_line_cursor = 0;
                self.command_line = Vec::new();
                self.mode = Mode::Normal;
                assert(self.command_line@.take(0) =~= Seq::<char>::empty());
            },
            CommandLineAction::Clear => {
                self.command_line_cursor = 0;
                self.command_line = Vec::new();
                assert(self.command_line@.take(0) =~= Seq::<char>::empty());
            },
        }
        let ghost mid = *reg;
        emit_consumable(reg, "request_redraw", Value::Null, "priority");
        assert(if cmd_action is Execute {
            executed(reg0, mid, l)
        } else {
            mid == reg0
        });
        assert(consumable_queued(mid, *reg, "request_redraw"@, ValueModel::Null, "priority"@));
        Ok(())
    }

    /// Switches the mode; see `set_mode_outcome`.
    pub fn set_mode<H, S, C, R>(
        &mut self,
        reg: &mut Registry<H, S, C, R>,
        buffers: &mut BufferPlugin,
        mode: Mode,
    ) -> (r: Result<(), String>)
        requires
            old(self).wf(),
            old(buffers).wf(),
            old(self).active_state() matches Some(s) ==> {
                let entering = !(old(self).spec_mode() is Insert) && mode is Insert;
                let leaving = old(self).spec_mode() is Insert && !(mode is Insert);
                &&& entering && old(buffers).has(s.buffer_id) ==> old(buffers).get(s.buffer_id).head() + 1
                    < usize::MAX
                &&& !entering ==> old(buffers).has(s.buffer_id)
                &&& leaving ==> old(self).spec_key() is Some && old(buffers).get(s.buffer_id).spec_lock()
                    == old(self).spec_key()
            },
        ensures
            final(self).wf(),
            final(buffers).wf(),
            exists|
                rl: Result<LockToken, String>,
                ru: Result<(), String>,
                mid: Registry<H, S, C, R>,
            |
                #[trigger] set_mode_outcome(
                    &*old(self),
                    &*final(self),
                    &*old(buffers),
                    &*final(buffers),
                    *old(reg),
                    *final(reg),
                    mode,
                    r,
                    rl,
                    ru,
                    mid,
                ),
    {
        let ghost me0 = *self;
        let ghost buf0 = *buffers;
        let ghost reg0 = *reg;
        let ghost mut rl: Result<LockToken, String> = vstd::pervasive::arbitrary();
        let ghost mut ru: Result<(), String> = Ok(());
        match self.active_slot() {
            Some(i) => {
                let bid = self.panes[i].1.buffer_id;
                if self.mode != Mode::Insert && mode == Mode::Insert {
                    let res = buffers.lock(bid);
                    proof {
                        rl = res;
                    }
                    match res {
                        Ok(k) => {
                            self.key_holder = Some(k);
                        },
                        Err(e) => {
                            assert(set_mode_outcome(&me0, &*self, &buf0, &*buffers, reg0, *reg, mode, Err(e), rl, ru, reg0));
                            return Err(e);
                        },
                    }
                }
                if self.mode == Mode::Insert && mode != Mode::Insert {
                    let key = match self.key_holder {
                        Some(k) => k,
                        None => LockToken(0),
                    };
                    let res = buffers.unlock(bid, key);
                    proof {
                        ru = res;
                    }
                }
            },
            None => {},
        }
        if self.mode == Mode::Command && mode != Mode::Command {
            self.command_line_cursor = 0;
            self.command_line = Vec::new();
            assert(self.command_line@.take(0) =~= Seq::<char>::empty());
        }
        self.mode = mode;
        self.clamp_cursor(buffers);
        broadcast(reg, "mode_changed", mode_to_value(mode));
        let ghost mid = *reg;
        emit_consumable(reg, "request_redraw", Value::Null, "priority");
        assert(set_mode_outcome(&me0, &*self, &buf0, &*buffers, reg0, *reg, mode, Ok(()), rl, ru, mid));
        Ok(())
    }

    /// Sets the pane of id `id` to `p`.
    fn upsert_pane(&mut self, id: PaneId, p: PaneState)
        requires
            old(self).wf(),
        ensures
            final(self).wf(),
            final(self).same_but_panes(&*old(self)),
            final(self).panes() == upsert(old(self).panes(), id, p),
    {
        match self.slot(id) {
            Some(i) => {
                proof {
                    lemma_set_pane(self.panes@, i as int, p);
                }
                self.panes.set(i, (id, p));
            },
            None => {
                let ghost before = self.panes@;
                self.panes.push((id, p));
                proof {
                    assert forall|a: int, b: int| 0 <= a < b < self.panes@.len() implies self.panes@[a].0
                        != self.panes@[b].0 by {
                        if b == before.len() {
                            if before[a].0 == id {
                                lemma_pane_at(before, a);
                            }
                        }
                    }
                }
            },
        }
    }

    /// Shows another buffer in the focused pane, from its start.
    pub fn switch_buffer<H, S, C, R>(
        &mut self,
        reg: &mut Registry<H, S, C, R>,
        buffers: &BufferPlugin,
        buffer_id: BufferId,
    ) -> (r: Result<(), String>)
        requires
            old(self).wf(),
            buffers.wf(),
            old(self).active_state() matches Some(s) ==> (s.buffer_id != buffer_id ==> buffers.has(
                buffer_id,
            )),
        ensures
            final(self).wf(),
            old(self).active_state() is None ==> (r matches Err(e) && e@ == "no active pane"@)
                && *final(self) == *old(self) && *final(reg) == *old(reg),
            old(self).active_state() matches Some(s) && s.buffer_id == buffer_id ==> r is Ok
                && *final(self) == *old(self) && *final(reg) == *old(reg),
            old(self).active_state() matches Some(s) ==> (s.buffer_id != buffer_id ==> {
                let m = PaneState {
                    buffer_id,
                    cursor: BufferPosition { line_idx: 0, byte_col_idx: 0 },
                    ..s
                };
                &&& r is Ok
                &&& final(self).same_but_panes(&*old(self))
                &&& final(self).panes() == clamp_panes(
                    set_pane(old(self).panes(), old(self).spec_active()->0, m),
                    Some(m),
                    old(self).spec_mode(),
                    buffers,
                )
                &&& consumable_queued(*old(reg), *final(reg), "request_redraw"@, ValueModel::Null,
                    "priority"@)
            }),
    {
        let i = match self.active_slot() {
            Some(i) => i,
            None => return Err("no active pane".to_owned()),
        };
        let (id, st) = self.panes[i];
        if st.buffer_id == buffer_id {
            return Ok(());
        }
        let m = PaneState {
            buffer_id,
            cursor: BufferPosition { line_idx: 0, byte_col_idx: 0 },
            view_offset: st.view_offset,
        };
        proof {
            lemma_set_pane(self.panes@, i as int, m);
        }
        self.panes.set(i, (id, m));
        self.clamp_cursor(buffers);
        emit_consumable(reg, "request_redraw", Value::Null, "priority");
        Ok(())
    }

    /// Asks for the command line's floating window.
    pub fn open_command<H, S, C, R>(&mut self, reg: &mut Registry<H, S, C, R>) -> (r: Result<
        (),
        String,
    >)
        ensures
            r is Ok,
            *final(self) == *old(self),
            consumable_queued(*old(reg), *final(reg), "open_float_window"@, command_window_model(),
                "priority"@),
    {
        let config = OpenFloatWindowConfig {
            float_window_handler: "cmdline".to_owned(),
            pane_handler: "cmdline".to_owned(),
        };
        emit_consumable(reg, "open_float_window", config.to_value(), "priority");
        Ok(())
    }

    /// Attaches a pane to a buffer: to `opened`, a buffer opened for it, or
    /// else to a new empty buffer.
    pub fn attach_pane(&mut self, buffers: &mut BufferPlugin, pane_id: PaneId, opened: Option<BufferId>) -> (r:
        Result<(), String>)
        requires
            old(self).wf(),
            old(buffers).wf(),
            opened is None ==> old(buffers).spec_next_id() < usize::MAX,
        ensures
            r is Ok,
            final(self).wf(),
            final(buffers).wf(),
            final(self).same_but_panes(&*old(self)),
            match opened {
                Some(b) => *final(buffers) == *old(buffers) && final(self).panes() == upsert(
                    old(self).panes(),
                    pane_id,
                    PaneState {
                        buffer_id: b,
                        cursor: BufferPosition { line_idx: 0, byte_col_idx: 0 },
                        view_offset: (0, 0),
                    },
                ),
                None => {
                    let b = BufferId(old(buffers).spec_next_id());
                    &&& final(buffers).has(b)
                    &&& final(buffers).spec_next_id() == old(buffers).spec_next_id() + 1
                    &&& forall|x: BufferId| #[trigger] final(buffers).has(x) == (old(buffers).has(x) || x == b)
                    &&& forall|x: BufferId| old(buffers).has(x) ==> #[trigger] final(buffers).get(x) == old(
                        buffers,
                    ).get(x)
                    &&& final(buffers).get(b).texts() == seq![Seq::<char>::empty()]
                    &&& final(self).panes() == upsert(
                        old(self).panes(),
                        pane_id,
                        PaneState {
                            buffer_id: b,
                            cursor: BufferPosition { line_idx: 0, byte_col_idx: 0 },
                            view_offset: (0, 0),
                        },
                    )
                },
            },
    {
        let buffer_id = match opened {
            Some(b) => b,
            None => match buffers.create() {
                Ok(b) => b,
                Err(e) => return Err(e),
            },
        };
        self.upsert_pane(pane_id, PaneState::new(buffer_id));
        Ok(())
    }

    /// Adds a pane on the buffer of another pane, from the buffer's start.
    pub fn split_pane(&mut self, new_id: PaneId, source_id: PaneId) -> (r: Result<(), String>)
        requires
            old(self).wf(),
        ensures
            final(self).wf(),
            pane_of(old(self).panes(), source_id) is None ==> (r matches Err(e) && e@
                == missing_pane_msg(source_id)) && *final(self) == *old(self),
            pane_of(old(self).panes(), source_id) matches Some(src) ==> r is Ok
                && final(self).same_but_panes(&*old(self)) && final(self).panes() == upsert(
                old(self).panes(),
                new_id,
                PaneState {
                    buffer_id: src.buffer_id,
                    cursor: BufferPosition { line_idx: 0, byte_col_idx: 0 },
                    view_offset: (0, 0),
                },
            ),
    {
        let i = match self.slot(source_id) {
            Some(i) => i,
            None => {
                let head = str_concat("modal don't have pane: PaneId(", usize_to_decimal(source_id.0).as_str());
                let msg = str_concat(head.as_str(), ")");
                return Err(msg);
            },
        };
        let b = self.panes[i].1.buffer_id;
        self.upsert_pane(new_id, PaneState::new(b));
        Ok(())
    }

    /// Focuses a pane; no pane may have the focus.
    pub fn pane_active(&mut self, pane_id: PaneId) -> (r: Result<(), String>)
        requires
            old(self).wf(),
            old(self).spec_active() is None,
        ensures
            r is Ok,
            final(self).wf(),
            final(self).spec_active() == Some(pane_id),
            final(self).spec_mode() == old(self).spec_mode(),
            final(self).spec_command_line() == old(self).spec_command_line(),
            final(self).spec_command_cursor() == old(self).spec_command_cursor(),
            final(self).panes() == old(self).panes(),
            final(self).spec_key() == old(self).spec_key(),
    {
        self.active_pane = Some(pane_id);
        Ok(())
    }

    /// Takes the focus from the focused pane: unlocks the buffer it locked,
    /// if it holds a key, and returns to normal mode.
    pub fn pane_inactive(&mut self, buffers: &mut BufferPlugin, pane_id: PaneId) -> (r: Result<(), String>)
        requires
            old(self).wf(),
            old(buffers).wf(),
            old(self).spec_active() == Some(pane_id),
            old(self).spec_key() matches Some(k) ==> (old(self).active_state() matches Some(s)
                && old(buffers).has(s.buffer_id) && old(buffers).get(s.buffer_id).spec_lock() == Some(k)),
        ensures
            r is Ok,
            final(self).wf(),
            final(buffers).wf(),
            final(self).spec_active() is None,
            final(self).spec_mode() is Normal,
            final(self).spec_command_line() == old(self).spec_command_line(),
            final(self).spec_command_cursor() == old(self).spec_command_cursor(),
            final(self).panes() == old(self).panes(),
            final(self).spec_key() == old(self).spec_key(),
            old(self).spec_key() matches Some(k) ==> unlock_outcome(&*old(buffers), &*final(buffers),
                old(self).active_state()->0.buffer_id, k, Ok(())),
            old(self).spec_key() is None ==> *final(buffers) == *old(buffers),
    {
        match self.key_holder {
            Some(key) => {
                let i = match self.active_slot() {
                    Some(i) => i,
                    None => 0,
                };
                let b = self.panes[i].1.buffer_id;
                let _ = buffers.unlock(b, key);
            },
            None => {},
        }
        self.mode = Mode::Normal;
        self.active_pane = None;
        Ok(())
    }

    /// The current mode.
    pub fn mode(&self) -> (r: Result<Mode, String>)
        ensures
            r == Ok::<Mode, String>(self.spec_mode()),
    {
        Ok(self.mode)
    }

    /// The focused pane, if any.
    pub fn active_pane(&self) -> (r: Option<PaneId>)
        ensures
            r == self.spec_active(),
    {
        self.active_pane
    }

    /// The buffer that the focused pane shows, if a pane is focused.
    pub fn active_buffer(&self) -> (r: Option<BufferId>)
        requires
            self.wf(),
        ensures
            match self.active_state() {
                Some(s) => r == Some(s.buffer_id),
                None => r is None,
            },
    {
        match self.active_slot() {
            Some(i) => Some(self.panes[i].1.buffer_id),
            None => None,
        }
    }

    /// Whether pane `id` is attached.
    /// Whether `render_pane` may be called for pane `pane_id` in a view of
    /// `size` cells: see `render_ok`.
    pub fn render_allowed(&self, buffers: &BufferPlugin, pane_id: PaneId, size: (u16, u16)) -> (b: bool)
        requires
            self.wf(),
            buffers.wf(),
        ensures
            b == (pane_of(self.panes(), pane_id) matches Some(s) && render_ok(s, size, buffers)),
    {
        let i = match self.slot(pane_id) {
            Some(i) => i,
            None => return false,
        };
        let s = &self.panes[i].1;
        if buffers.get_buffer(s.buffer_id).is_err() || size.1 < 1 {
            return false;
        }
        let n = s.len_lines(buffers);
        if s.cursor.line_idx >= n {
            return false;
        }
        let ghost t = buffers.get(s.buffer_id).text();
        let line = match s.line(buffers, s.cursor.line_idx) {
            Some(l) => l,
            None => return false,
        };
        let _ = str_len_bytes(line.as_str());
        let cs = str_chars(line.as_str());
        let k = match char_index_at(&cs, s.cursor.byte_col_idx) {
            Some(k) => k,
            None => return false,
        };
        proof {
            lemma_chars_within_boundary(cs@, k as int);
        }
        let prefix = slice_prefix(&cs, k);
        let l = crate::screen::width_of_str(string_from_chars(prefix.as_slice()).as_str());
        let w = if k < cs.len() {
            match crate::screen::width_of_char(cs[k]) {
                Some(w) => w,
                None => 0,
            }
        } else {
            0
        };
        if l > usize::MAX - w {
            return false;
        }
        let r = l + w;
        let left = s.view_offset.0 as u128;
        let a = if (l as u128) <= left { l as u128 } else { left };
        let vx = if a + (size.0 as u128) < r as u128 { r as u128 - size.0 as u128 } else { a };
        let top = s.view_offset.1 as u128;
        let li = s.cursor.line_idx as u128;
        let b = if li < top { li } else { top };
        let vy = if b + (size.1 as u128) <= li { li - (size.1 as u128 - 1) } else { b };
        if vx + size.0 as u128 > usize::MAX as u128 || vy + size.1 as u128 > usize::MAX as u128 {
            return false;
        }
        let mut j: usize = 0;
        while j < n
            invariant
                buffers.wf(),
                buffers.has(s.buffer_id),
                n == line_count(buffers.get(s.buffer_id).text()),
                j <= n,
                pane_of(self.panes(), pane_id) == Some(*s),
                forall|m: int| 0 <= m < j ==> cols(#[trigger] line_of(buffers.get(s.buffer_id).text(), m)) <= usize::MAX,
            decreases n - j,
        {
            let lj = match s.line(buffers, j) {
                Some(x) => x,
                None => return false,
            };
            if !crate::screen::cols_fit(&lj) {
                return false;
            }
            j = j + 1;
        }
        true
    }

    pub fn has_pane(&self, id: PaneId) -> (r: bool)
        requires
            self.wf(),
        ensures
            r == pane_of(self.panes(), id) is Some,
    {
        self.slot(id).is_some()
    }

    /// The key of the lock taken on entering insert mode, if one is kept.
    pub fn key(&self) -> (r: Option<LockToken>)
        ensures
            r == self.spec_key(),
    {
        self.key_holder
    }

    /// The command line's cursor, a byte offset.
    pub fn command_cursor(&self) -> (r: usize)
        ensures
            r == self.spec_command_cursor(),
    {
        self.command_line_cursor
    }

    /// The text of the command line.
    pub fn command_line(&self) -> (r: Result<String, String>)
        ensures
            r matches Ok(s) && s@ == self.spec_command_line(),
    {
        Ok(string_from_chars(self.command_line.as_slice()))
    }

    /// Draws a pane in a view of `size` cells; see `PaneState::render`.
    pub fn render_pane(&mut self, buffers: &BufferPlugin, pane_id: PaneId, size: (u16, u16)) -> (r: Result<
        Vec<DrawCommand>,
        String,
    >)
        requires
            old(self).wf(),
            buffers.wf(),
            pane_of(old(self).panes(), pane_id) matches Some(s) && render_ok(s, size, buffers),
        ensures
            final(self).wf(),
            final(self).spec_mode() == old(self).spec_mode(),
            final(self).spec_command_line() == old(self).spec_command_line(),
            final(self).spec_command_cursor() == old(self).spec_command_cursor(),
            final(self).spec_active() == old(self).spec_active(),
            final(self).spec_key() == old(self).spec_key(),
            pane_of(old(self).panes(), pane_id) matches Some(s) && {
                let t = buffers.get(s.buffer_id).text();
                &&& final(self).panes() == set_pane(
                    old(self).panes(),
                    pane_id,
                    PaneState { view_offset: scrolled(s, size, t), ..s },
                )
                &&& r matches Ok(v) && v@.len() == rendered(s, old(self).spec_mode(), size, t).len()
                    && forall|i: int| 0 <= i < v@.len() ==> #[trigger] v@[i]@ == rendered(
                    s,
                    old(self).spec_mode(),
                    size,
                    t,
                )[i]
            },
    {
        let i = match self.slot(pane_id) {
            Some(i) => i,
            None => return Err("no pane".to_owned()),
        };
        let (id, mut st) = self.panes[i];
        let r = st.render(self.mode, size, buffers);
        proof {
            lemma_set_pane(self.panes@, i as int, st);
        }
        self.panes.set(i, (id, st));
        r
    }

    /// Stops the editor's main loop.
    pub fn quit<H, S, C, R>(&self, reg: &mut Registry<H, S, C, R>) -> (r: Result<(), String>)
        ensures
            r is Ok,
            !final(reg).spec_running(),
            final(reg).event_queue@ == old(reg).event_queue@,
            final(reg).command_queue@ == old(reg).command_queue@,
    {
        crate::registry::quit(reg);
        Ok(())
    }
}

/// The panes after clamping the cursors of those that show the buffer of
/// `active`.
pub open spec fn clamp_panes(
    panes: Seq<(PaneId, PaneState)>,
    active: Option<PaneState>,
    mode: Mode,
    buffers: &BufferPlugin,
) -> Seq<(PaneId, PaneState)> {
    match active {
        Some(a) => panes.map_values(
            |e: (PaneId, PaneState)|
                (e.0, clamp_pane(e.1, a.buffer_id, mode, buffers.get(a.buffer_id).text())),
        ),
        None => panes,
    }
}

/// Moving up by `count` lands `count` lines higher, or on the first line
/// when there are fewer lines above; moving down lands `count` lines lower.
/// Neither motion changes the column or anything but the cursor's line.
pub proof fn law_vertical_motion(s: PaneState, count: usize, t: Seq<char>)
    requires
        s.cursor.line_idx + count <= usize::MAX,
    ensures
        moved(s, CursorMove::Up { count }, t).cursor.line_idx == if s.cursor.line_idx >= count {
            s.cursor.line_idx - count
        } else {
            0
        },
        moved(s, CursorMove::Down { count }, t).cursor.line_idx == s.cursor.line_idx + count,
        moved(s, CursorMove::Up { count }, t).cursor.byte_col_idx == s.cursor.byte_col_idx,
        moved(s, CursorMove::Down { count }, t).cursor.byte_col_idx == s.cursor.byte_col_idx,
        moved(s, CursorMove::Up { count }, t).buffer_id == s.buffer_id,
        moved(s, CursorMove::Down { count }, t).view_offset == s.view_offset,
        count <= s.cursor.line_idx ==> moved(
            moved(s, CursorMove::Up { count }, t),
            CursorMove::Down { count },
            t,
        ).cursor.line_idx == s.cursor.line_idx,
{
}

/// Typing two characters at a character boundary of the command line puts
/// them there in the order typed, and leaves the cursor just after both:
/// each insertion moves the cursor past the text it inserts.
pub proof fn law_typing_appends_at_cursor(l: Seq<char>, k: int, x: char, y: char)
    requires
        0 <= k <= l.len(),
    ensures
        ({
            let c = utf8_len(l.take(k)) as int;
            let (l1, c1) = command_line_after(CommandLineAction::AddChar(x), l, c);
            let (l2, c2) = command_line_after(CommandLineAction::AddChar(y), l1, c1);
            &&& l1 == l.take(k) + seq![x] + l.skip(k)
            &&& c1 == c + utf8_len(seq![x])
            &&& l2 == l.take(k) + seq![x, y] + l.skip(k)
            &&& c2 == c + utf8_len(seq![x, y])
        }),
{
    let c = utf8_len(l.take(k)) as int;
    lemma_chars_within_boundary(l, k);
    let l1 = l.take(k) + seq![x] + l.skip(k);
    assert(l1.take(k + 1) =~= l.take(k) + seq![x]);
    crate::text::lemma_utf8_len_append(l.take(k), seq![x]);
    lemma_chars_within_boundary(l1, k + 1);
    assert(l1.take(k + 1) + seq![y] + l1.skip(k + 1) =~= l.take(k) + seq![x, y] + l.skip(k));
    crate::text::lemma_utf8_len_append(seq![x], seq![y]);
    assert(seq![x] + seq![y] =~= seq![x, y]);
}

/// Any text inserted into the command line at a character boundary leaves
/// the text before the cursor unchanged, the inserted text right after it,
/// and the cursor just past the inserted text.
pub proof fn law_insert_moves_cursor_past(l: Seq<char>, k: int, action: CommandLineAction)
    requires
        0 <= k <= l.len(),
        action is AddChar || action is InsertText,
    ensures
        ({
            let c = utf8_len(l.take(k)) as int;
            let (l1, c1) = command_line_after(action, l, c);
            &&& l1.take(k) == l.take(k)
            &&& l1.subrange(k, k + inserted(action).len()) == inserted(action)
            &&& l1.skip(k + inserted(action).len()) == l.skip(k)
            &&& c1 == utf8_len(l1.take(k + inserted(action).len()))
        }),
{
    let c = utf8_len(l.take(k)) as int;
    lemma_chars_within_boundary(l, k);
    let ins = inserted(action);
    let l1 = l.take(k) + ins + l.skip(k);
    assert(l1.take(k) =~= l.take(k));
    assert(l1.subrange(k, k + ins.len()) =~= ins);
    assert(l1.skip(k + ins.len()) =~= l.skip(k));
    assert(l1.take(k + ins.len()) =~= l.take(k) + ins);
    crate::text::lemma_utf8_len_append(l.take(k), ins);
}

/// Scrolling keeps the cursor's line in view: the view's first row is at or
/// above it and the view, `h` rows high, reaches it.
pub proof fn law_scroll_keeps_cursor_row(top: int, line: int, h: int)
    requires
        h >= 1,
        0 <= line,
    ensures
        scrolled_row(top, line, h) <= line < scrolled_row(top, line, h) + h,
{
}

/// After rendering a pane the cursor's line lies inside the view; where the
/// cursor's character fits in the view's width, so do its columns.
pub proof fn law_render_shows_cursor(s: PaneState, size: (u16, u16), t: Seq<char>)
    requires
        size.1 >= 1,
    ensures
        scrolled(s, size, t).1 <= s.cursor.line_idx,
        s.cursor.line_idx < scrolled(s, size, t).1 + size.1,
        ({
            let cc = cursor_cols(line_of(t, s.cursor.line_idx as int), s.cursor.byte_col_idx as int);
            0 <= cc.0 <= cc.1 && cc.1 - cc.0 <= size.0 && cc.1 - size.0 <= usize::MAX ==> scrolled(s, size, t).0
                <= cc.0 && cc.1 <= scrolled(s, size, t).0 + size.0
        }),
{
}

/// Moving left by `count` from the boundary after the `k`-th character of
/// the cursor's line lands after character `k - count`, or at the line's
/// start; moving right lands after character `k + count`, or at the line's
/// end. Neither motion changes the line.
pub proof fn law_horizontal_motion(s: PaneState, count: usize, t: Seq<char>, k: int)
    requires
        0 <= k <= line_of(t, s.cursor.line_idx as int).len(),
        s.cursor.byte_col_idx == utf8_len(line_of(t, s.cursor.line_idx as int).take(k)),
    ensures
        ({
            let line = line_of(t, s.cursor.line_idx as int);
            &&& moved(s, CursorMove::Left { count }, t).cursor.byte_col_idx == if count <= k {
                utf8_len(line.take(k - count)) as usize
            } else {
                0usize
            }
            &&& moved(s, CursorMove::Right { count }, t).cursor.byte_col_idx == if k + count <= line.len() {
                utf8_len(line.take(k + count)) as usize
            } else {
                utf8_len(line) as usize
            }
            &&& moved(s, CursorMove::Left { count }, t).cursor.line_idx == s.cursor.line_idx
            &&& moved(s, CursorMove::Right { count }, t).cursor.line_idx == s.cursor.line_idx
        }),
{
    let line = line_of(t, s.cursor.line_idx as int);
    lemma_chars_within_boundary(line, k);
    assert(line.take(line.len() as int) =~= line);
}

/// Deleting forward on the command line at the boundary after its `k`-th
/// character removes the character after the cursor and keeps the cursor
/// where it is.
pub proof fn law_delete_forward_on_command_line(l: Seq<char>, k: int)
    requires
        0 <= k < l.len(),
    ensures
        ({
            let c = utf8_len(l.take(k)) as int;
            let (l1, c1) = command_line_after(CommandLineAction::DeleteCharForward, l, c);
            &&& c1 == c
            &&& l1 == l.remove(k)
        }),
{
    lemma_chars_within_boundary(l, k);
    assert(l.take(k) + l.skip(k + 1) =~= l.remove(k));
}

} // verus!
