use vstd::prelude::*;

use crate::data::Mode;
use crate::event::EventResult;
use crate::input::{KeyCode, KeyEvent, KeyState};

verus! {

/// What a plugin may ask of the editor it runs in. The editor keeps the
/// requests that it received as [`ContextCall`]s, oldest first.
pub trait PluginContext {
    /// The requests received so far, oldest first.
    spec fn requests(&self) -> Seq<ContextCall>;

    /// The editor's current mode.
    spec fn spec_mode(&self) -> Mode;

    fn buffer_len_lines(&self) -> usize;
    fn buffer_line(&self, row: usize) -> Option<String>;
    fn buffer_line_len_chars(&self, row: usize) -> usize;
    fn buffer_insert_char(&mut self, row: usize, col: usize, ch: char);
    fn buffer_insert_char_at_cursor(&mut self, ch: char)
        ensures
            final(self).requests() == old(self).requests().push(ContextCall::InsertChar(ch)),
    ;
    fn buffer_backspace(&mut self)
        ensures
            final(self).requests() == old(self).requests().push(ContextCall::Backspace),
    ;
    fn buffer_remove_range(&mut self, row: usize, col_start: usize, col_end: usize);
    fn cursor_position(&self) -> (usize, usize);
    fn cursor_set_position(&mut self, row: usize, col: usize);
    fn cursor_up(&mut self, count: usize)
        ensures
            final(self).requests() == old(self).requests().push(ContextCall::CursorUp(count)),
    ;
    fn cursor_down(&mut self, count: usize)
        ensures
            final(self).requests() == old(self).requests().push(ContextCall::CursorDown(count)),
    ;
    fn cursor_left(&mut self, count: usize)
        ensures
            final(self).requests() == old(self).requests().push(ContextCall::CursorLeft(count)),
    ;
    fn cursor_right(&mut self, count: usize)
        ensures
            final(self).requests() == old(self).requests().push(ContextCall::CursorRight(count)),
    ;
    fn mode(&self) -> (m: Mode)
        ensures
            m == self.spec_mode(),
    ;
    fn set_mode(&mut self, mode: Mode)
        ensures
            final(self).requests() == old(self).requests().push(ContextCall::SetMode(mode)),
    ;
    fn command_add_char(&mut self, ch: char)
        ensures
            final(self).requests() == old(self).requests().push(ContextCall::CommandAddChar(ch)),
    ;
    fn command_clear(&mut self)
        ensures
            final(self).requests() == old(self).requests().push(ContextCall::CommandClear),
    ;
    fn command_backspace(&mut self)
        ensures
            final(self).requests() == old(self).requests().push(ContextCall::CommandBackspace),
    ;
    fn command_execute(&mut self)
        ensures
            final(self).requests() == old(self).requests().push(ContextCall::CommandExecute),
    ;
    fn quit(&mut self)
        ensures
            final(self).requests() == old(self).requests().push(ContextCall::Quit),
    ;
}

/// A request of the key handler to the editor.
#[derive(Debug, Clone, Copy, PartialEq, Eq, Structural)]
pub enum ContextCall {
    CursorUp(usize),
    CursorDown(usize),
    CursorLeft(usize),
    CursorRight(usize),
    SetMode(Mode),
    Quit,
    InsertChar(char),
    Backspace,
    CommandAddChar(char),
    CommandExecute,
    CommandClear,
    CommandBackspace,
}

pub open spec fn insert_char_call(c: char) -> ContextCall {
    ContextCall::InsertChar(c)
}

pub open spec fn command_char_call(c: char) -> ContextCall {
    ContextCall::CommandAddChar(c)
}

/// The arrow key's motion by one, in any mode but the command line.
pub open spec fn arrow_call(code: KeyCode) -> Option<ContextCall> {
    match code {
        KeyCode::Up => Some(ContextCall::CursorUp(1)),
        KeyCode::Left => Some(ContextCall::CursorLeft(1)),
        KeyCode::Down => Some(ContextCall::CursorDown(1)),
        KeyCode::Right => Some(ContextCall::CursorRight(1)),
        _ => None,
    }
}

/// What a pressed key asks in `mode`; keys without a meaning ask nothing.
pub open spec fn key_calls(code: KeyCode, mode: Mode) -> Seq<ContextCall> {
    match mode {
        Mode::Normal => match code {
            KeyCode::Char(c) => if c == 'w' {
                seq![ContextCall::CursorUp(1)]
            } else if c == 'a' {
                seq![ContextCall::CursorLeft(1)]
            } else if c == 's' {
                seq![ContextCall::CursorDown(1)]
            } else if c == 'd' {
                seq![ContextCall::CursorRight(1)]
            } else if c == 'j' {
                seq![ContextCall::SetMode(Mode::Insert)]
            } else if c == ';' {
                seq![ContextCall::SetMode(Mode::Command)]
            } else {
                Seq::empty()
            },
            KeyCode::Escape => seq![ContextCall::Quit],
            _ => match arrow_call(code) {
                Some(call) => seq![call],
                None => Seq::empty(),
            },
        },
        Mode::Insert => match code {
            KeyCode::Char(c) => seq![insert_char_call(c)],
            KeyCode::Backspace => seq![ContextCall::Backspace],
            KeyCode::Escape => seq![ContextCall::SetMode(Mode::Normal)],
            _ => match arrow_call(code) {
                Some(call) => seq![call],
                None => Seq::empty(),
            },
        },
        Mode::Command => match code {
            KeyCode::Char(c) => seq![command_char_call(c)],
            KeyCode::Enter => seq![ContextCall::CommandExecute],
            KeyCode::Escape => seq![ContextCall::CommandClear, ContextCall::SetMode(Mode::Normal)],
            KeyCode::Backspace => seq![ContextCall::CommandBackspace],
            _ => Seq::empty(),
        },
    }
}

fn insert_char(c: char) -> (r: ContextCall)
    ensures
        r == insert_char_call(c),
{
    ContextCall::InsertChar(c)
}

fn command_char(c: char) -> (r: ContextCall)
    ensures
        r == command_char_call(c),
{
    ContextCall::CommandAddChar(c)
}

fn arrow(code: KeyCode) -> (r: Option<ContextCall>)
    ensures
        r == arrow_call(code),
{
    match code {
        KeyCode::Up => Some(ContextCall::CursorUp(1)),
        KeyCode::Left => Some(ContextCall::CursorLeft(1)),
        KeyCode::Down => Some(ContextCall::CursorDown(1)),
        KeyCode::Right => Some(ContextCall::CursorRight(1)),
        _ => None,
    }
}

fn calls_of(code: KeyCode, mode: Mode) -> (r: Vec<ContextCall>)
    ensures
        r@ == key_calls(code, mode),
{
    let mut v: Vec<ContextCall> = Vec::new();
    match mode {
        Mode::Normal => match code {
            KeyCode::Char(c) => {
                if c == 'w' {
                    v.push(ContextCall::CursorUp(1));
                } else if c == 'a' {
                    v.push(ContextCall::CursorLeft(1));
                } else if c == 's' {
                    v.push(ContextCall::CursorDown(1));
                } else if c == 'd' {
                    v.push(ContextCall::CursorRight(1));
                } else if c == 'j' {
                    v.push(ContextCall::SetMode(Mode::Insert));
                } else if c == ';' {
                    v.push(ContextCall::SetMode(Mode::Command));
                }
            },
            KeyCode::Escape => v.push(ContextCall::Quit),
            _ => match arrow(code) {
                Some(call) => v.push(call),
                None => {},
            },
        },
        Mode::Insert => match code {
            KeyCode::Char(c) => v.push(insert_char(c)),
            KeyCode::Backspace => v.push(ContextCall::Backspace),
            KeyCode::Escape => v.push(ContextCall::SetMode(Mode::Normal)),
            _ => match arrow(code) {
                Some(call) => v.push(call),
                None => {},
            },
        },
        Mode::Command => match code {
            KeyCode::Char(c) => v.push(command_char(c)),
            KeyCode::Enter => v.push(ContextCall::CommandExecute),
            KeyCode::Escape => {
                v.push(ContextCall::CommandClear);
                v.push(ContextCall::SetMode(Mode::Normal));
            },
            KeyCode::Backspace => v.push(ContextCall::CommandBackspace),
            _ => {},
        },
    }
    assert(v@ =~= key_calls(code, mode));
    v
}

/// Runs the requests in order: the context receives them after those it had.
pub fn apply_calls<Ctx: PluginContext>(ctx: &mut Ctx, calls: &Vec<ContextCall>)
    ensures
        final(ctx).requests() == old(ctx).requests() + calls@,
{
    let mut i: usize = 0;
    while i < calls.len()
        invariant
            i <= calls@.len(),
            ctx.requests() == old(ctx).requests() + calls@.take(i as int),
        decreases calls@.len() - i,
    {
        match calls[i] {
            ContextCall::CursorUp(n) => ctx.cursor_up(n),
            ContextCall::CursorDown(n) => ctx.cursor_down(n),
            ContextCall::CursorLeft(n) => ctx.cursor_left(n),
            ContextCall::CursorRight(n) => ctx.cursor_right(n),
            ContextCall::SetMode(m) => ctx.set_mode(m),
            ContextCall::Quit => ctx.quit(),
            ContextCall::InsertChar(c) => ctx.buffer_insert_char_at_cursor(c),
            ContextCall::Backspace => ctx.buffer_backspace(),
            ContextCall::CommandAddChar(c) => ctx.command_add_char(c),
            ContextCall::CommandExecute => ctx.command_execute(),
            ContextCall::CommandClear => ctx.command_clear(),
            ContextCall::CommandBackspace => ctx.command_backspace(),
        }
        assert(calls@.take(i + 1) =~= calls@.take(i as int).push(calls@[i as int]));
        i = i + 1;
    }
    assert(calls@.take(calls@.len() as int) =~= calls@);
}

/// The terminal front end's key handler.
pub struct ModalPlugin();

impl ModalPlugin {
    pub fn new() -> (p: Self) {
        ModalPlugin()
    }

    /// The requests for a key event: an event that carries no key is passed
    /// on; a pressed key asks what `key_calls` says in the editor's mode.
    pub fn handle(&mut self, key_event: Option<&KeyEvent>, mode: Mode) -> (r: (EventResult, Vec<ContextCall>))
        ensures
            match key_event {
                None => r.0 is Propagate && r.1@.len() == 0,
                Some(k) => r.0 is Handled && r.1@ == if k.state is Press {
                    key_calls(k.code, mode)
                } else {
                    Seq::empty()
                },
            },
    {
        let k = match key_event {
            Some(k) => k,
            None => return (EventResult::Propagate, Vec::new()),
        };
        let calls = match k.state {
            KeyState::Press => calls_of(k.code, mode),
            _ => Vec::new(),
        };
        (EventResult::Handled, calls)
    }

    /// Handles a key event with the editor's context: an event that carries
    /// no key is passed on; a pressed key sends the context the requests that
    /// `key_calls` gives in the context's mode; a released or repeated key is
    /// handled and asks nothing, and the context is not asked for its mode.
    pub fn handle_with<Ctx: PluginContext>(&mut self, key_event: Option<&KeyEvent>, ctx: &mut Ctx) -> (r: EventResult)
        ensures
            key_event is None <==> r is Propagate,
            key_event is None ==> final(ctx).requests() == old(ctx).requests(),
            key_event matches Some(k) ==> final(ctx).requests() == old(ctx).requests() + (if k.state is Press {
                key_calls(k.code, old(ctx).spec_mode())
            } else {
                Seq::empty()
            }),
    {
        let k = match key_event {
            Some(k) => k,
            None => return EventResult::Propagate,
        };
        let calls = match k.state {
            KeyState::Press => {
                let mode = ctx.mode();
                calls_of(k.code, mode)
            },
            _ => Vec::new(),
        };
        apply_calls(ctx, &calls);
        EventResult::Handled
    }
}

} // verus!
