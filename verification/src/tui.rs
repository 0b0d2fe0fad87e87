use vstd::prelude::*;

use crate::data::Mode;
use crate::draw::{CommandModel, CursorStyle, DrawCommand};
use crate::modal::slice_prefix;
use crate::screen::{cols, cols_fit, str_width, trim_display_range, trimmed, width_of_str};
use crate::text::{char_boundary, char_index_at, str_chars, string_from_chars, utf8_len};

verus! {

/// The terminal front end: the top-left cell of the buffer's view.
pub struct TuiPlugin {
    pub view_offset: (usize, usize),
}

/// The terminal driver; it holds no state.
pub struct TuiDriverPlugin();

impl TuiDriverPlugin {
    pub fn new() -> (p: Self) {
        TuiDriverPlugin()
    }
}

/// The view's first row after scrolling so that `row` shows in `h` rows.
pub open spec fn tui_row(top: int, row: int, h: int) -> int {
    let a = if row < top {
        row
    } else {
        top
    };
    if a + h <= row {
        row - (h - 1)
    } else {
        a
    }
}

/// The view's first column after scrolling so that the columns from `l`
/// to `r` show in `w` columns.
pub open spec fn tui_col(left: int, l: int, r: int, w: int) -> int {
    let a = if l < left {
        l
    } else {
        left
    };
    if a + w < r {
        r - w
    } else {
        a
    }
}

impl TuiPlugin {
    /// The view at the top-left of the buffer.
    pub fn new() -> (p: Self)
        ensures
            p.view_offset == (0usize, 0usize),
    {
        TuiPlugin { view_offset: (0, 0) }
    }

    /// Scrolls the view so that the cursor's row, and the columns from `l`
    /// (before the cursor) to `r` (the end of its line), show in a view of
    /// `w` columns and `h` rows.
    pub fn scroll(&mut self, row: usize, l: usize, r: usize, w: usize, h: usize)
        requires
            h >= 1,
            (if row < old(self).view_offset.1 {
                row as int
            } else {
                old(self).view_offset.1 as int
            }) + h <= usize::MAX,
            (if l < old(self).view_offset.0 {
                l as int
            } else {
                old(self).view_offset.0 as int
            }) + w <= usize::MAX,
        ensures
            final(self).view_offset == (
                tui_col(old(self).view_offset.0 as int, l as int, r as int, w as int) as usize,
                tui_row(old(self).view_offset.1 as int, row as int, h as int) as usize,
            ),
    {
        if row < self.view_offset.1 {
            self.view_offset.1 = row;
        }
        if self.view_offset.1 + h <= row {
            self.view_offset.1 = row - (h - 1);
        }
        if l < self.view_offset.0 {
            self.view_offset.0 = l;
        }
        if self.view_offset.0 + w < r {
            self.view_offset.0 = r - w;
        }
    }
}

/// The prompt before the command line on the status line.
pub open spec fn command_prompt() -> Seq<char> {
    "-- COMMAND -- :"@
}

/// The status line in a mode: the mode's name, and in command mode the
/// prompt and the command line.
pub open spec fn status_text(mode: Mode, command_line: Seq<char>) -> Seq<char> {
    match mode {
        Mode::Normal => "-- NORMAL --"@,
        Mode::Insert => "-- INSERT --"@,
        Mode::Command => command_prompt() + command_line,
    }
}

/// Where the cursor shows and in what shape: in normal and insert mode at
/// its cell in the view, a block in normal mode and a bar in insert mode,
/// the column being the width of its line before it (`x`); in command mode
/// a bar on the last row after the prompt and the command line's text
/// before its cursor (`cx` columns). Cells are counted in 16 bits.
pub open spec fn tui_cursor(
    mode: Mode,
    offset: (usize, usize),
    row: usize,
    x: int,
    size: (u16, u16),
    cx: int,
) -> ((u16, u16), CursorStyle) {
    match mode {
        Mode::Normal => (((x - offset.0) as u16, (row - offset.1) as u16), CursorStyle::SteadyBlock),
        Mode::Insert => (((x - offset.0) as u16, (row - offset.1) as u16), CursorStyle::SteadyBar),
        Mode::Command => ((cx as u16, (size.1 - 1) as u16), CursorStyle::SteadyBar),
    }
}

/// The text of `s` before byte `b`, where a character starts at `b`.
pub open spec fn chars_before(s: Seq<char>, b: int) -> Seq<char> {
    s.take(choose|k: int| 0 <= k <= s.len() && utf8_len(s.take(k)) == b)
}

/// The rows of the buffer that show, each cut to the view's columns.
pub open spec fn rows_drawn(rows: Seq<String>, left: int, w: int) -> Seq<CommandModel> {
    Seq::new(rows.len(), |i: int| CommandModel::Str((0u16, i as u16), trimmed(rows[i]@, left, left + w).0))
}

/// What the text must allow: the cursor stands at a character boundary of
/// its line, and the widths and the view's right edge stay within the
/// machine's integers.
pub open spec fn draw_ok(
    p: &TuiPlugin,
    size: (u16, u16),
    mode: Mode,
    rows: Seq<String>,
    cursor_row: usize,
    line: Seq<char>,
    byte_col: usize,
    command_line: Seq<char>,
    command_cursor: usize,
) -> bool {
    &&& 1 <= size.1
    &&& rows.len() < size.1
    &&& p.view_offset.0 + size.0 <= usize::MAX
    &&& forall|i: int| 0 <= i < rows.len() ==> cols(#[trigger] rows[i]@) <= usize::MAX
    &&& match mode {
        Mode::Command => {
            &&& utf8_len(command_line) <= usize::MAX
            &&& char_boundary(command_line, command_cursor as int)
            &&& str_width(command_prompt()) + str_width(chars_before(command_line, command_cursor as int)) <= usize::MAX
        },
        _ => {
            &&& utf8_len(line) <= usize::MAX
            &&& char_boundary(line, byte_col as int)
            &&& p.view_offset.0 <= str_width(chars_before(line, byte_col as int))
            &&& p.view_offset.1 <= cursor_row
        },
    }
}

/// What the view draws: the rows, the status line and the cursor; see
/// `TuiPlugin::draw`.
pub open spec fn tui_drawn(
    p: &TuiPlugin,
    size: (u16, u16),
    mode: Mode,
    rows: Seq<String>,
    cursor_row: usize,
    line: Seq<char>,
    byte_col: usize,
    command_line: Seq<char>,
    command_cursor: usize,
) -> Seq<CommandModel> {
    let x = str_width(chars_before(line, byte_col as int));
    let cx = str_width(command_prompt()) + str_width(chars_before(command_line, command_cursor as int));
    let (pos, style) = tui_cursor(mode, p.view_offset, cursor_row, x as int, size, cx);
    rows_drawn(rows, p.view_offset.0 as int, size.0 as int).push(
        CommandModel::Str((0u16, (size.1 - 1) as u16), status_text(mode, command_line)),
    ).push(CommandModel::Cursor(pos, style))
}

/// The text before byte `b` of `s` where a character starts at `b`.
fn boundary_prefix(s: &str, b: usize) -> (r: Option<String>)
    ensures
        r is Some <==> char_boundary(s@, b as int),
        r matches Some(t) ==> t@ == chars_before(s@, b as int),
{
    let _ = crate::text::str_len_bytes(s);
    let cs = str_chars(s);
    match char_index_at(&cs, b) {
        Some(_) => Some(text_before(s, b)),
        None => None,
    }
}

/// The text before byte `b` of `s`, where a character starts at `b`.
fn text_before(s: &str, b: usize) -> (r: String)
    requires
        utf8_len(s@) <= usize::MAX,
        char_boundary(s@, b as int),
    ensures
        r@ == chars_before(s@, b as int),
{
    let cs = str_chars(s);
    match char_index_at(&cs, b) {
        Some(k) => {
            proof {
                crate::text::lemma_boundary_index_unique(s@, k as int);
            }
            let pre = slice_prefix(&cs, k);
            string_from_chars(pre.as_slice())
        },
        None => {
            proof {
                assert(false);
            }
            String::new()
        },
    }
}

impl TuiPlugin {
    /// `draw` where what it needs holds (see `draw_ok`), and `None` where
    /// it does not.
    pub fn draw_checked(
        &self,
        size: (u16, u16),
        mode: Mode,
        rows: Vec<String>,
        cursor_row: usize,
        line: &str,
        byte_col: usize,
        command_line: &str,
        command_cursor: usize,
    ) -> (r: Option<Vec<DrawCommand>>)
        ensures
            r is Some <==> draw_ok(self, size, mode, rows@, cursor_row, line@, byte_col, command_line@, command_cursor),
            r matches Some(v) ==> v@.map_values(|c: DrawCommand| c@) == tui_drawn(
                self,
                size,
                mode,
                rows@,
                cursor_row,
                line@,
                byte_col,
                command_line@,
                command_cursor,
            ),
    {
        if size.1 < 1 || rows.len() >= size.1 as usize || self.view_offset.0 > usize::MAX - size.0 as usize {
            return None;
        }
        let mut i: usize = 0;
        while i < rows.len()
            invariant
                i <= rows@.len(),
                forall|j: int| 0 <= j < i ==> cols(#[trigger] rows@[j]@) <= usize::MAX,
            decreases rows@.len() - i,
        {
            if !cols_fit(&rows[i]) {
                return None;
            }
            i = i + 1;
        }
        match mode {
            Mode::Command => {
                let _ = crate::text::str_len_bytes(command_line);
                let before = match boundary_prefix(command_line, command_cursor) {
                    Some(t) => t,
                    None => return None,
                };
                let pw = width_of_str("-- COMMAND -- :");
                let bw = width_of_str(before.as_str());
                if pw > usize::MAX - bw {
                    return None;
                }
            },
            _ => {
                let _ = crate::text::str_len_bytes(line);
                let before = match boundary_prefix(line, byte_col) {
                    Some(t) => t,
                    None => return None,
                };
                let w = width_of_str(before.as_str());
                if self.view_offset.0 > w || self.view_offset.1 > cursor_row {
                    return None;
                }
            },
        }
        Some(self.draw(size, mode, rows, cursor_row, line, byte_col, command_line, command_cursor))
    }

    /// Draws the view: the buffer's rows from the view's first row (`rows`,
    /// up to the first row past the end of the buffer), each cut to the
    /// view's columns; the status line on the terminal's last row; and the
    /// cursor, at byte `byte_col` of line `cursor_row`, whose text is `line`,
    /// or in command mode at byte `command_cursor` of the command line.
    pub fn draw(
        &self,
        size: (u16, u16),
        mode: Mode,
        rows: Vec<String>,
        cursor_row: usize,
        line: &str,
        byte_col: usize,
        command_line: &str,
        command_cursor: usize,
    ) -> (r: Vec<DrawCommand>)
        requires
            draw_ok(self, size, mode, rows@, cursor_row, line@, byte_col, command_line@, command_cursor),
        ensures
            r@.map_values(|c: DrawCommand| c@) == tui_drawn(
                self,
                size,
                mode,
                rows@,
                cursor_row,
                line@,
                byte_col,
                command_line@,
                command_cursor,
            ),
    {
        let ghost rs = rows@;
        let left = self.view_offset.0;
        let right = left + size.0 as usize;
        let mut out: Vec<DrawCommand> = Vec::new();
        let mut i: usize = 0;
        while i < rows.len()
            invariant
                i <= rs.len(),
                rs == rows@,
                rs.len() < size.1,
                right == left + size.0,
                out@.len() == i,
                forall|j: int| 0 <= j < rs.len() ==> cols(#[trigger] rs[j]@) <= usize::MAX,
                out@.map_values(|c: DrawCommand| c@) == rows_drawn(rs, left as int, size.0 as int).take(i as int),
            decreases rs.len() - i,
        {
            assert(cols(rs[i as int]@) <= usize::MAX);
            let t = trim_display_range(rows[i].as_str(), left, right);
            let ghost before = out@;
            out.push(DrawCommand::DrawString { position: (0, i as u16), text: t });
            proof {
                let d = rows_drawn(rs, left as int, size.0 as int);
                assert(d[i as int] == out@[i as int]@);
                assert(out@.map_values(|c: DrawCommand| c@) =~= before.map_values(|c: DrawCommand| c@).push(out@[i as int]@));
                assert(d.take(i + 1) =~= d.take(i as int).push(d[i as int]));
            }
            i = i + 1;
        }
        let last = size.1 - 1;
        let status = match mode {
            Mode::Normal => "-- NORMAL --".to_owned(),
            Mode::Insert => "-- INSERT --".to_owned(),
            Mode::Command => {
                let mut cs = str_chars("-- COMMAND -- :");
                let mut more = str_chars(command_line);
                cs.append(&mut more);
                string_from_chars(cs.as_slice())
            },
        };
        out.push(DrawCommand::DrawString { position: (0, last), text: status });
        let cursor = match mode {
            Mode::Command => {
                let before = text_before(command_line, command_cursor);
                let x = width_of_str("-- COMMAND -- :") + width_of_str(before.as_str());
                DrawCommand::SetCursor { position: (#[verifier::truncate] (x as u16), last), style: CursorStyle::SteadyBar }
            },
            _ => {
                let before = text_before(line, byte_col);
                let x = width_of_str(before.as_str());
                let style = if mode == Mode::Normal { CursorStyle::SteadyBlock } else { CursorStyle::SteadyBar };
                DrawCommand::SetCursor {
                    position: (
                        #[verifier::truncate] ((x - self.view_offset.0) as u16),
                        #[verifier::truncate] ((cursor_row - self.view_offset.1) as u16),
                    ),
                    style,
                }
            },
        };
        out.push(cursor);
        assert(rows_drawn(rs, left as int, size.0 as int).take(rs.len() as int) =~= rows_drawn(rs, left as int, size.0 as int));
        out
    }
}

/// The front end's scrolling keeps the cursor's row in a view `h` rows high,
/// and the columns from `l` to `r` in a view `w` columns wide where they fit
/// in it.
pub proof fn law_tui_scroll_shows_cursor(top: int, row: int, h: int, left: int, l: int, r: int, w: int)
    requires
        h >= 1,
        0 <= row,
        0 <= l <= r,
        r - l <= w,
    ensures
        tui_row(top, row, h) <= row < tui_row(top, row, h) + h,
        tui_col(left, l, r, w) <= l,
        r <= tui_col(left, l, r, w) + w,
{
}

} // verus!
