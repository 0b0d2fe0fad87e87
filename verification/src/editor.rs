use vstd::prelude::*;

verus! {

/// Whether the editor keeps running.
pub struct EditorState {
    pub running: bool,
}

/// What a plugin may ask of the editor.
pub trait PluginContext {
    /// Stops the editor.
    fn quit(&mut self);
}

impl EditorState {
    /// A running editor.
    pub fn new() -> (s: Self)
        ensures
            s.running,
    {
        EditorState { running: true }
    }
}

impl Default for EditorState {
    fn default() -> (s: Self)
        ensures
            s.running,
    {
        EditorState::new()
    }
}

impl PluginContext for EditorState {
    fn quit(&mut self)
        ensures
            !final(self).running,
    {
        self.running = false;
    }
}

} // verus!
