use vstd::prelude::*;

use crate::data::id::{FloatId, PaneId};
use crate::data::tui_layout::{split_model, Direction, LayoutModel, LayoutNode, PaneEntry};
use crate::data::OpenFloatWindowConfig;
use crate::registry::{consumable_queued, emit_consumable, Registry};
use crate::value::{Value, ValueModel};

verus! {

/// A floating window: its layout and the plugin that places it.
#[derive(Debug)]
pub struct FloatWindow {
    pub root: LayoutNode,
    pub handler: String,
}

/// The windows of the terminal: the main window's layout, the floating
/// windows, the panes with the plugins that serve them, the floating
/// windows that took the focus, the focused pane and the next ids.
pub struct TuiCompositorPlugin {
    main_window: LayoutNode,
    float_windows: Vec<(FloatId, FloatWindow)>,
    panes: Vec<(PaneId, PaneEntry)>,
    focus_window_stack: Vec<FloatId>,
    focus: PaneId,
    next_pane_id: usize,
    next_float_id: usize,
}

/// The entry of pane `id` among `panes`: the last one registered.
pub open spec fn entry_of(panes: Seq<(PaneId, PaneEntry)>, id: PaneId) -> Option<(Option<PaneId>, Seq<char>)>
    decreases panes.len(),
{
    if panes.len() == 0 {
        None
    } else if panes.last().0 == id {
        Some((panes.last().1.parent, panes.last().1.handler@))
    } else {
        entry_of(panes.drop_last(), id)
    }
}

impl TuiCompositorPlugin {
    pub closed spec fn spec_main(&self) -> LayoutModel {
        self.main_window@
    }

    pub closed spec fn spec_panes(&self) -> Seq<(PaneId, PaneEntry)> {
        self.panes@
    }

    pub closed spec fn spec_floats(&self) -> Seq<(FloatId, LayoutModel, Seq<char>)> {
        self.float_windows@.map_values(|f: (FloatId, FloatWindow)| (f.0, f.1.root@, f.1.handler@))
    }

    pub closed spec fn spec_stack(&self) -> Seq<FloatId> {
        self.focus_window_stack@
    }

    pub closed spec fn spec_focus(&self) -> PaneId {
        self.focus
    }

    pub closed spec fn spec_next_pane(&self) -> usize {
        self.next_pane_id
    }

    pub closed spec fn spec_next_float(&self) -> usize {
        self.next_float_id
    }

    /// One pane, 0, served by `handler`, in the main window and focused.
    pub fn new(handler: &str) -> (p: Self)
        ensures
            p.spec_main() == LayoutModel::Pane(PaneId(0)),
            p.spec_floats().len() == 0,
            entry_of(p.spec_panes(), PaneId(0)) == Some((None::<PaneId>, handler@)),
            p.spec_panes().len() == 1,
            p.spec_stack().len() == 0,
            p.spec_focus() == PaneId(0),
            p.spec_next_pane() == 1,
            p.spec_next_float() == 0,
    {
        let pane_id = PaneId(0);
        let mut panes: Vec<(PaneId, PaneEntry)> = Vec::new();
        panes.push((pane_id, PaneEntry { parent: None, handler: handler.to_owned() }));
        let p = TuiCompositorPlugin {
            main_window: LayoutNode::Pane(pane_id),
            float_windows: Vec::new(),
            panes,
            focus_window_stack: Vec::new(),
            focus: pane_id,
            next_pane_id: 1,
            next_float_id: 0,
        };
        assert(p.spec_floats() =~= Seq::<(FloatId, LayoutModel, Seq<char>)>::empty());
        p
    }

    /// Takes the next pane id.
    pub fn get_next_pane_id(&mut self) -> (id: PaneId)
        requires
            old(self).spec_next_pane() < usize::MAX,
        ensures
            id.0 == old(self).spec_next_pane(),
            final(self).spec_next_pane() == old(self).spec_next_pane() + 1,
            final(self).spec_next_float() == old(self).spec_next_float(),
            final(self).spec_main() == old(self).spec_main(),
            final(self).spec_panes() == old(self).spec_panes(),
            final(self).spec_floats() == old(self).spec_floats(),
            final(self).spec_stack() == old(self).spec_stack(),
            final(self).spec_focus() == old(self).spec_focus(),
    {
        let id = PaneId(self.next_pane_id);
        self.next_pane_id = self.next_pane_id + 1;
        id
    }

    /// Takes the next floating window id.
    pub fn get_next_float_id(&mut self) -> (id: FloatId)
        requires
            old(self).spec_next_float() < usize::MAX,
        ensures
            id.0 == old(self).spec_next_float(),
            final(self).spec_next_float() == old(self).spec_next_float() + 1,
            final(self).spec_next_pane() == old(self).spec_next_pane(),
            final(self).spec_main() == old(self).spec_main(),
            final(self).spec_panes() == old(self).spec_panes(),
            final(self).spec_floats() == old(self).spec_floats(),
            final(self).spec_stack() == old(self).spec_stack(),
            final(self).spec_focus() == old(self).spec_focus(),
    {
        let id = FloatId(self.next_float_id);
        self.next_float_id = self.next_float_id + 1;
        id
    }

    /// Starts splitting the focused pane: takes an id for the new pane and
    /// gives it with the focused pane and the plugin that serves it, which
    /// is asked to split next. The focused pane must have an entry.
    pub fn begin_split(&mut self) -> (r: (PaneId, PaneId, String))
        requires
            old(self).spec_next_pane() < usize::MAX,
            entry_of(old(self).spec_panes(), old(self).spec_focus()) is Some,
        ensures
            r.0.0 == old(self).spec_next_pane(),
            r.1 == old(self).spec_focus(),
            r.2@ == (entry_of(old(self).spec_panes(), old(self).spec_focus())->0).1,
            final(self).spec_next_pane() == old(self).spec_next_pane() + 1,
            final(self).spec_next_float() == old(self).spec_next_float(),
            final(self).spec_main() == old(self).spec_main(),
            final(self).spec_panes() == old(self).spec_panes(),
            final(self).spec_floats() == old(self).spec_floats(),
            final(self).spec_stack() == old(self).spec_stack(),
            final(self).spec_focus() == old(self).spec_focus(),
    {
        let source_id = self.focus;
        let new_id = self.get_next_pane_id();
        let handler = match self.pane_handler(source_id) {
            Some(h) => h,
            None => String::new(),
        };
        (new_id, source_id, handler)
    }

    /// The plugin that serves pane `id`, if it is known.
    pub fn pane_handler(&self, id: PaneId) -> (r: Option<String>)
        ensures
            match entry_of(self.spec_panes(), id) {
                Some(e) => r matches Some(h) && h@ == e.1,
                None => r is None,
            },
    {
        let mut i = self.panes.len();
        assert(self.panes@.take(i as int) =~= self.panes@);
        while i > 0
            invariant
                i <= self.panes@.len(),
                entry_of(self.panes@, id) == entry_of(self.panes@.take(i as int), id),
            decreases i,
        {
            let ghost pre = self.panes@.take(i as int);
            assert(pre.drop_last() =~= self.panes@.take(i - 1));
            if self.panes[i - 1].0 == id {
                return Some(self.panes[i - 1].1.handler.clone());
            }
            i = i - 1;
        }
        assert(self.panes@.take(0) =~= Seq::<(PaneId, PaneEntry)>::empty());
        None
    }

    /// Finishes a split that the pane's plugin accepted: the new pane gets
    /// an entry with its parent and handler, and the main window's layout
    /// shows it beside the source pane; see `split_model`.
    pub fn finish_split(
        &mut self,
        new_id: PaneId,
        source_id: PaneId,
        parent: Option<PaneId>,
        handler: String,
        direction: Direction,
    )
        ensures
            final(self).spec_main() == split_model(old(self).spec_main(), new_id, source_id, direction),
            entry_of(final(self).spec_panes(), new_id) == Some((parent, handler@)),
            forall|x: PaneId| x != new_id ==> entry_of(final(self).spec_panes(), x) == entry_of(
                old(self).spec_panes(),
                x,
            ),
            final(self).spec_next_pane() == old(self).spec_next_pane(),
            final(self).spec_next_float() == old(self).spec_next_float(),
            final(self).spec_floats() == old(self).spec_floats(),
            final(self).spec_stack() == old(self).spec_stack(),
            final(self).spec_focus() == old(self).spec_focus(),
    {
        let ghost before = self.panes@;
        self.panes.push((new_id, PaneEntry { parent, handler }));
        assert(self.panes@.drop_last() =~= before);
        self.main_window.split(new_id, source_id, direction);
    }

    /// The focused pane.
    pub fn focus_pane(&self) -> (r: Result<PaneId, String>)
        ensures
            r == Ok::<PaneId, String>(self.spec_focus()),
    {
        Ok(self.focus)
    }

    /// Opens a floating window for `config`: takes a window id and a pane
    /// id, and adds the window with the pane as its layout. The window's
    /// plugin is asked to attach the window next, and the pane's plugin the
    /// pane; see `add_pane_entry`.
    pub fn open_float_window(&mut self, config: &OpenFloatWindowConfig) -> (r: (FloatId, PaneId))
        requires
            old(self).spec_next_float() < usize::MAX,
            old(self).spec_next_pane() < usize::MAX,
        ensures
            r.0.0 == old(self).spec_next_float(),
            r.1.0 == old(self).spec_next_pane(),
            final(self).spec_next_float() == old(self).spec_next_float() + 1,
            final(self).spec_next_pane() == old(self).spec_next_pane() + 1,
            final(self).spec_floats() == old(self).spec_floats().push(
                (r.0, LayoutModel::Pane(r.1), config.float_window_handler@),
            ),
            final(self).spec_main() == old(self).spec_main(),
            final(self).spec_panes() == old(self).spec_panes(),
            final(self).spec_stack() == old(self).spec_stack(),
            final(self).spec_focus() == old(self).spec_focus(),
    {
        let float_id = self.get_next_float_id();
        let pane_id = self.get_next_pane_id();
        let ghost before = self.float_windows@;
        self.float_windows.push(
            (float_id, FloatWindow { root: LayoutNode::Pane(pane_id), handler: config.float_window_handler.clone() }),
        );
        assert(self.spec_floats() =~= before.map_values(
            |f: (FloatId, FloatWindow)| (f.0, f.1.root@, f.1.handler@),
        ).push((float_id, LayoutModel::Pane(pane_id), config.float_window_handler@)));
        (float_id, pane_id)
    }

    /// Records the pane of a floating window with its parent and handler.
    pub fn add_pane_entry(&mut self, pane_id: PaneId, parent: Option<PaneId>, handler: String)
        ensures
            entry_of(final(self).spec_panes(), pane_id) == Some((parent, handler@)),
            forall|x: PaneId| x != pane_id ==> entry_of(final(self).spec_panes(), x) == entry_of(
                old(self).spec_panes(),
                x,
            ),
            final(self).spec_main() == old(self).spec_main(),
            final(self).spec_next_pane() == old(self).spec_next_pane(),
            final(self).spec_next_float() == old(self).spec_next_float(),
            final(self).spec_floats() == old(self).spec_floats(),
            final(self).spec_stack() == old(self).spec_stack(),
            final(self).spec_focus() == old(self).spec_focus(),
    {
        let ghost before = self.panes@;
        self.panes.push((pane_id, PaneEntry { parent, handler }));
        assert(self.panes@.drop_last() =~= before);
    }

    /// Focuses the pane of a floating window that takes the focus, and
    /// announces the new focus.
    pub fn focus_float<H, S, C, R>(&mut self, reg: &mut Registry<H, S, C, R>, float_id: FloatId, pane_id: PaneId)
        ensures
            final(self).spec_stack() == old(self).spec_stack().push(float_id),
            final(self).spec_focus() == pane_id,
            final(self).spec_main() == old(self).spec_main(),
            final(self).spec_panes() == old(self).spec_panes(),
            final(self).spec_floats() == old(self).spec_floats(),
            final(self).spec_next_pane() == old(self).spec_next_pane(),
            final(self).spec_next_float() == old(self).spec_next_float(),
            consumable_queued(*old(reg), *final(reg), "change_focus"@, ValueModel::Uint(pane_id.0 as u64), "priority"@),
    {
        self.focus_window_stack.push(float_id);
        self.focus = pane_id;
        emit_consumable(reg, "change_focus", Value::Uint(pane_id.0 as u64), "priority");
    }

    /// The main window's layout.
    /// The floating windows, oldest first.
    pub fn float_windows(&self) -> (r: &Vec<(FloatId, FloatWindow)>)
        ensures
            r@.map_values(|f: (FloatId, FloatWindow)| (f.0, f.1.root@, f.1.handler@)) == self.spec_floats(),
    {
        &self.float_windows
    }

    pub fn main_window(&self) -> (r: &LayoutNode)
        ensures
            r@ == self.spec_main(),
    {
        &self.main_window
    }
}

} // verus!
