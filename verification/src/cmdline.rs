use vstd::prelude::*;

use crate::data::id::{FloatId, PaneId};
use crate::data::tui_layout::{LayoutNode, Rect, ResolvedLayout};
use crate::draw::{CommandModel, DrawCommand};
use crate::text::{str_chars, string_from_chars};

verus! {

/// The floating window of the command line and its pane.
pub struct CommandLinePlugin {
    buffer: String,
    float_id: Option<FloatId>,
    pane_id: Option<PaneId>,
}

/// `n` copies of `c`.
pub open spec fn repeat(c: char, n: nat) -> Seq<char> {
    Seq::new(n, |i: int| c)
}

/// The width inside the frame: two columns less, or none.
pub open spec fn inner(w: u16) -> nat {
    if w >= 2 {
        (w - 2) as nat
    } else {
        0
    }
}

/// Row `row` of the frame of a window `size` cells large: the top edge, the
/// bottom edge from the third row on, or a side row.
pub open spec fn frame_row(row: u16, size: (u16, u16)) -> Seq<char> {
    let n = inner(size.0);
    if row == 0 {
        seq!['╔'] + repeat('═', n) + seq!['╗']
    } else if 2 <= row && row + 1 == size.1 {
        seq!['╚'] + repeat('═', n) + seq!['╝']
    } else {
        seq!['║'] + repeat(' ', n) + seq!['║']
    }
}

/// `left`, `n` copies of `mid`, then `right`.
fn framed(left: char, mid: char, n: u16, right: char) -> (r: String)
    ensures
        r@ == seq![left] + repeat(mid, n as nat) + seq![right],
{
    let mut cs: Vec<char> = Vec::new();
    cs.push(left);
    let mut i: u16 = 0;
    while i < n
        invariant
            i <= n,
            cs@ == seq![left] + repeat(mid, i as nat),
        decreases n - i,
    {
        cs.push(mid);
        i = i + 1;
        assert(cs@ =~= seq![left] + repeat(mid, i as nat));
    }
    cs.push(right);
    assert(cs@ =~= seq![left] + repeat(mid, n as nat) + seq![right]);
    string_from_chars(cs.as_slice())
}

impl CommandLinePlugin {
    pub closed spec fn spec_float(&self) -> Option<FloatId> {
        self.float_id
    }

    pub closed spec fn spec_pane(&self) -> Option<PaneId> {
        self.pane_id
    }

    /// The text typed so far.
    pub closed spec fn spec_buffer(&self) -> Seq<char> {
        self.buffer@
    }

    /// No window, no pane and nothing typed.
    pub fn new() -> (p: Self)
        ensures
            p.spec_float() is None,
            p.spec_pane() is None,
            p.spec_buffer().len() == 0,
    {
        CommandLinePlugin { buffer: String::new(), float_id: None, pane_id: None }
    }

    /// The floating window, once one is attached.
    pub fn float_window(&self) -> (r: Option<FloatId>)
        ensures
            r == self.spec_float(),
    {
        self.float_id
    }

    /// The pane, once one is attached.
    pub fn pane(&self) -> (r: Option<PaneId>)
        ensures
            r == self.spec_pane(),
    {
        self.pane_id
    }

    /// Takes the floating window; the plugin has none yet.
    pub fn attach_float_window(&mut self, float_id: FloatId) -> (r: Result<(), String>)
        requires
            old(self).spec_float() is None,
        ensures
            r is Ok,
            final(self).spec_float() == Some(float_id),
            final(self).spec_pane() == old(self).spec_pane(),
            final(self).spec_buffer() == old(self).spec_buffer(),
    {
        self.float_id = Some(float_id);
        Ok(())
    }

    /// The command line takes the focus.
    pub fn is_focusable(&self) -> (r: Result<bool, String>)
        ensures
            r == Ok::<bool, String>(true),
    {
        Ok(true)
    }

    /// Frames the window and puts the pane on its middle row, inside the
    /// frame. The layout is the plugin's own pane.
    pub fn resolve_layout(&self, node: LayoutNode, float_window_size: (u16, u16)) -> (r: Result<
        ResolvedLayout,
        String,
    >)
        requires
            self.spec_pane() matches Some(p) && node == LayoutNode::Pane(p),
        ensures
            r matches Ok(l) && {
                &&& l.pane_rects@ == seq![
                    (
                        self.spec_pane()->0,
                        Rect { offset: (1u16, 1u16), size: (inner(float_window_size.0) as u16, 1u16) },
                    ),
                ]
                &&& l.back_draw_commands@.len() == float_window_size.1
                &&& forall|row: int|
                    0 <= row < float_window_size.1 ==> #[trigger] l.back_draw_commands@[row]@
                        == CommandModel::Str((0u16, row as u16), frame_row(row as u16, float_window_size))
            },
    {
        let w = if float_window_size.0 >= 2 {
            float_window_size.0 - 2
        } else {
            0
        };
        let pane = match self.pane_id {
            Some(p) => p,
            None => PaneId(0),
        };
        let cmdline_rect = Rect { offset: (1, 1), size: (w, 1) };
        let mut commands: Vec<DrawCommand> = Vec::new();
        let mut row: u16 = 0;
        while row < float_window_size.1
            invariant
                row <= float_window_size.1,
                w as nat == inner(float_window_size.0),
                commands@.len() == row,
                forall|j: int|
                    0 <= j < row ==> #[trigger] commands@[j]@ == CommandModel::Str(
                        (0u16, j as u16),
                        frame_row(j as u16, float_window_size),
                    ),
            decreases float_window_size.1 - row,
        {
            let text = if row == 0 {
                framed('╔', '═', w, '╗')
            } else if 2 <= row && row + 1 == float_window_size.1 {
                framed('╚', '═', w, '╝')
            } else {
                framed('║', ' ', w, '║')
            };
            commands.push(DrawCommand::DrawString { position: (0, row), text });
            row = row + 1;
        }
        let mut rects: Vec<(PaneId, Rect)> = Vec::new();
        rects.push((pane, cmdline_rect));
        assert(rects@ =~= seq![(pane, cmdline_rect)]);
        Ok(ResolvedLayout { pane_rects: rects, back_draw_commands: commands })
    }

    /// Takes the pane and clears the text; the plugin has no pane yet.
    pub fn attach_pane(&mut self, pane_id: PaneId) -> (r: Result<(), String>)
        requires
            old(self).spec_pane() is None,
        ensures
            r is Ok,
            final(self).spec_pane() == Some(pane_id),
            final(self).spec_float() == old(self).spec_float(),
            final(self).spec_buffer().len() == 0,
    {
        self.pane_id = Some(pane_id);
        self.buffer = String::new();
        Ok(())
    }

    /// The pane is the plugin's own.
    pub fn pane_active(&self, pane_id: PaneId) -> (r: Result<(), String>)
        requires
            self.spec_pane() == Some(pane_id),
        ensures
            r is Ok,
    {
        Ok(())
    }

    /// Draws the pane: a prompt line.
    pub fn render_pane(&self, pane_id: PaneId) -> (r: Result<Vec<DrawCommand>, String>)
        requires
            self.spec_pane() == Some(pane_id),
        ensures
            r matches Ok(v) && v@.len() == 1 && v@[0]@ == CommandModel::Str(
                (0u16, 0u16),
                ":ここに入力されたコマンドが入るよ！！！"@,
            ),
    {
        let mut v: Vec<DrawCommand> = Vec::new();
        v.push(
            DrawCommand::DrawString {
                position: (0, 0),
                text: ":ここに入力されたコマンドが入るよ！！！".to_owned(),
            },
        );
        Ok(v)
    }
}

} // verus!
