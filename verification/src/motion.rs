use vstd::prelude::*;

use crate::data::input::{KeyEvent, LogicalKey, NamedKey};
use crate::data::{CommandLineAction, CursorMove, EditAction, Mode};
use crate::event::EventResult;
use crate::text::{str_chars, str_eq};

verus! {

/// What a key asks of the modal editor.
#[derive(Debug)]
pub enum MotionAction {
    CursorMove(CursorMove),
    Edit(EditAction),
    SetMode(Mode),
    CommandLine(CommandLineAction),
}

/// The content of a [`MotionAction`], with text as characters.
pub enum ActionModel {
    Move(CursorMove),
    InsertText(Seq<char>),
    DeleteCharForward,
    DeleteCharBackward,
    NewLine,
    Undo,
    Redo,
    OtherEdit,
    SetMode(Mode),
    AddChar(char),
    CommandText(Seq<char>),
    Backspace,
    CommandDeleteForward,
    CommandDeleteBackward,
    Execute,
    Clear,
}

impl View for MotionAction {
    type V = ActionModel;

    open spec fn view(&self) -> ActionModel {
        match self {
            MotionAction::CursorMove(mv) => ActionModel::Move(*mv),
            MotionAction::Edit(e) => match e {
                EditAction::InsertText(t) => ActionModel::InsertText(t@),
                EditAction::DeleteCharForward => ActionModel::DeleteCharForward,
                EditAction::DeleteCharBackward => ActionModel::DeleteCharBackward,
                EditAction::NewLine => ActionModel::NewLine,
                EditAction::Undo => ActionModel::Undo,
                EditAction::Redo => ActionModel::Redo,
                _ => ActionModel::OtherEdit,
            },
            MotionAction::SetMode(m) => ActionModel::SetMode(*m),
            MotionAction::CommandLine(a) => match a {
                CommandLineAction::AddChar(c) => add_char_model(*c),
                CommandLineAction::InsertText(t) => ActionModel::CommandText(t@),
                CommandLineAction::Backspace => ActionModel::Backspace,
                CommandLineAction::DeleteCharForward => ActionModel::CommandDeleteForward,
                CommandLineAction::DeleteCharBackward => ActionModel::CommandDeleteBackward,
                CommandLineAction::Execute => ActionModel::Execute,
                CommandLineAction::Clear => ActionModel::Clear,
            },
        }
    }
}

/// The motion of an arrow key, moving by one.
pub open spec fn arrow_move(k: NamedKey) -> Option<CursorMove> {
    match k {
        NamedKey::ArrowUp => Some(CursorMove::Up { count: 1 }),
        NamedKey::ArrowLeft => Some(CursorMove::Left { count: 1 }),
        NamedKey::ArrowDown => Some(CursorMove::Down { count: 1 }),
        NamedKey::ArrowRight => Some(CursorMove::Right { count: 1 }),
        _ => None,
    }
}

/// What a typed text means in normal mode.
pub open spec fn normal_text(c: Seq<char>) -> Option<Seq<ActionModel>> {
    if c == "w"@ {
        Some(seq![ActionModel::Move(CursorMove::Up { count: 1 })])
    } else if c == "a"@ {
        Some(seq![ActionModel::Move(CursorMove::Left { count: 1 })])
    } else if c == "s"@ {
        Some(seq![ActionModel::Move(CursorMove::Down { count: 1 })])
    } else if c == "d"@ {
        Some(seq![ActionModel::Move(CursorMove::Right { count: 1 })])
    } else if c == "W"@ {
        Some(seq![ActionModel::Move(CursorMove::Up { count: 5 })])
    } else if c == "A"@ {
        Some(seq![ActionModel::Move(CursorMove::Left { count: 5 })])
    } else if c == "S"@ {
        Some(seq![ActionModel::Move(CursorMove::Down { count: 5 })])
    } else if c == "D"@ {
        Some(seq![ActionModel::Move(CursorMove::Right { count: 5 })])
    } else if c == "i"@ {
        Some(seq![ActionModel::Undo])
    } else if c == "I"@ {
        Some(seq![ActionModel::Redo])
    } else if c == "j"@ {
        Some(seq![ActionModel::SetMode(Mode::Insert)])
    } else if c == "k"@ {
        Some(
            seq![
                ActionModel::SetMode(Mode::Insert),
                ActionModel::Move(CursorMove::Right { count: 1 }),
            ],
        )
    } else if c == ";"@ {
        Some(seq![ActionModel::SetMode(Mode::Command)])
    } else {
        None
    }
}

/// What a named key means in insert mode.
pub open spec fn insert_named(k: NamedKey) -> Option<Seq<ActionModel>> {
    match k {
        NamedKey::Enter => Some(seq![ActionModel::NewLine]),
        NamedKey::Backspace => Some(seq![ActionModel::DeleteCharBackward]),
        NamedKey::Delete => Some(seq![ActionModel::DeleteCharForward]),
        NamedKey::Escape => Some(seq![ActionModel::SetMode(Mode::Normal)]),
        _ => match arrow_move(k) {
            Some(mv) => Some(seq![ActionModel::Move(mv)]),
            None => None,
        },
    }
}

/// What a named key means in command mode.
pub open spec fn command_named(k: NamedKey) -> Option<Seq<ActionModel>> {
    match k {
        NamedKey::Enter => Some(seq![ActionModel::Execute]),
        NamedKey::Escape => Some(seq![ActionModel::Clear, ActionModel::SetMode(Mode::Normal)]),
        NamedKey::Backspace => Some(seq![ActionModel::Backspace]),
        _ => None,
    }
}

/// What a key means in `mode`: the actions, in order, or `None` when the
/// key is not for this plugin. A released key asks for nothing.
pub open spec fn key_actions(key: &KeyEvent, mode: Mode) -> Option<Seq<ActionModel>> {
    if !(key.state is Pressed) {
        Some(Seq::empty())
    } else {
        match mode {
            Mode::Normal => match &key.logical_key {
                LogicalKey::Character(c) => normal_text(c@),
                LogicalKey::Named(k) => match arrow_move(*k) {
                    Some(mv) => Some(seq![ActionModel::Move(mv)]),
                    None => None,
                },
                _ => None,
            },
            Mode::Insert => match &key.logical_key {
                LogicalKey::Character(c) => Some(seq![ActionModel::InsertText(c@)]),
                LogicalKey::Named(k) => insert_named(*k),
                _ => None,
            },
            Mode::Command => match &key.logical_key {
                LogicalKey::Character(c) => Some(add_char_models(c@)),
                LogicalKey::Named(k) => command_named(*k),
                _ => None,
            },
        }
    }
}

/// The actions of `v` have the contents `m`, in order.
pub open spec fn views_are(v: Seq<MotionAction>, m: Seq<ActionModel>) -> bool {
    v.len() == m.len() && forall|j: int| 0 <= j < v.len() ==> #[trigger] v[j]@ == m[j]
}

/// The plugin that turns keys into motions, edits and mode changes.
#[derive(Debug)]
pub struct MotionPlugin();

fn arrow(k: NamedKey) -> (r: Option<CursorMove>)
    ensures
        r == arrow_move(k),
{
    match k {
        NamedKey::ArrowUp => Some(CursorMove::Up { count: 1 }),
        NamedKey::ArrowLeft => Some(CursorMove::Left { count: 1 }),
        NamedKey::ArrowDown => Some(CursorMove::Down { count: 1 }),
        NamedKey::ArrowRight => Some(CursorMove::Right { count: 1 }),
        _ => None,
    }
}

fn one_move(mv: CursorMove) -> (r: Option<Vec<MotionAction>>)
    ensures
        r matches Some(v) && views_are(v@, seq![ActionModel::Move(mv)]),
{
    let mut v: Vec<MotionAction> = Vec::new();
    v.push(MotionAction::CursorMove(mv));
    Some(v)
}

fn one_action(a: MotionAction) -> (r: Option<Vec<MotionAction>>)
    ensures
        r matches Some(v) && views_are(v@, seq![a@]),
{
    let ghost m = a@;
    let mut v: Vec<MotionAction> = Vec::new();
    v.push(a);
    Some(v)
}

fn normal_actions(c: &str) -> (r: Option<Vec<MotionAction>>)
    ensures
        match normal_text(c@) {
            Some(acts) => r matches Some(v) && views_are(v@, acts),
            None => r is None,
        },
{
    if str_eq(c, "w") {
        one_move(CursorMove::Up { count: 1 })
    } else if str_eq(c, "a") {
        one_move(CursorMove::Left { count: 1 })
    } else if str_eq(c, "s") {
        one_move(CursorMove::Down { count: 1 })
    } else if str_eq(c, "d") {
        one_move(CursorMove::Right { count: 1 })
    } else if str_eq(c, "W") {
        one_move(CursorMove::Up { count: 5 })
    } else if str_eq(c, "A") {
        one_move(CursorMove::Left { count: 5 })
    } else if str_eq(c, "S") {
        one_move(CursorMove::Down { count: 5 })
    } else if str_eq(c, "D") {
        one_move(CursorMove::Right { count: 5 })
    } else if str_eq(c, "i") {
        one_action(MotionAction::Edit(EditAction::Undo))
    } else if str_eq(c, "I") {
        one_action(MotionAction::Edit(EditAction::Redo))
    } else if str_eq(c, "j") {
        one_action(MotionAction::SetMode(Mode::Insert))
    } else if str_eq(c, "k") {
        let mut v: Vec<MotionAction> = Vec::new();
        v.push(MotionAction::SetMode(Mode::Insert));
        v.push(MotionAction::CursorMove(CursorMove::Right { count: 1 }));
        Some(v)
    } else if str_eq(c, ";") {
        one_action(MotionAction::SetMode(Mode::Command))
    } else {
        None
    }
}

fn insert_named_actions(k: NamedKey) -> (r: Option<Vec<MotionAction>>)
    ensures
        match insert_named(k) {
            Some(acts) => r matches Some(v) && views_are(v@, acts),
            None => r is None,
        },
{
    match k {
        NamedKey::Enter => one_action(MotionAction::Edit(EditAction::NewLine)),
        NamedKey::Backspace => one_action(MotionAction::Edit(EditAction::DeleteCharBackward)),
        NamedKey::Delete => one_action(MotionAction::Edit(EditAction::DeleteCharForward)),
        NamedKey::Escape => one_action(MotionAction::SetMode(Mode::Normal)),
        _ => match arrow(k) {
            Some(mv) => one_move(mv),
            None => None,
        },
    }
}

fn command_named_actions(k: NamedKey) -> (r: Option<Vec<MotionAction>>)
    ensures
        match command_named(k) {
            Some(acts) => r matches Some(v) && views_are(v@, acts),
            None => r is None,
        },
{
    match k {
        NamedKey::Enter => one_action(MotionAction::CommandLine(CommandLineAction::Execute)),
        NamedKey::Escape => {
            let mut v: Vec<MotionAction> = Vec::new();
            v.push(MotionAction::CommandLine(CommandLineAction::Clear));
            v.push(MotionAction::SetMode(Mode::Normal));
                Some(v)
        },
        NamedKey::Backspace => one_action(MotionAction::CommandLine(CommandLineAction::Backspace)),
        _ => None,
    }
}

/// Appends one character-adding action per character of `cs` from `i` on.
fn push_add_chars(cs: &Vec<char>, i: usize, v: &mut Vec<MotionAction>)
    requires
        i <= cs@.len(),
        old(v)@.len() == i,
        forall|j: int| 0 <= j < i ==> #[trigger] old(v)@[j]@ == add_char_model(cs@[j]),
    ensures
        final(v)@.len() == cs@.len(),
        forall|j: int| 0 <= j < cs@.len() ==> #[trigger] final(v)@[j]@ == add_char_model(cs@[j]),
    decreases cs@.len() - i,
{
    if i < cs.len() {
        let a = add_char_action(cs[i]);
        let ghost before = v@;
        v.push(a);
        assert(v@.len() == before.len() + 1);
        push_add_chars(cs, i + 1, v);
    }
}

fn add_char_action(c: char) -> (a: MotionAction)
    ensures
        a@ == add_char_model(c),
{
    MotionAction::CommandLine(CommandLineAction::AddChar(c))
}

/// One character-adding action per character of `cs`.
fn add_chars(cs: &Vec<char>) -> (r: Vec<MotionAction>)
    ensures
        views_are(r@, add_char_models(cs@)),
{
    let mut v: Vec<MotionAction> = Vec::new();
    push_add_chars(cs, 0, &mut v);
    proof {
        lemma_add_char_models(cs@);
    }
    v
}

/// One character-adding action per character of `s`.
pub open spec fn add_char_models(s: Seq<char>) -> Seq<ActionModel>
    decreases s.len(),
{
    if s.len() == 0 {
        Seq::empty()
    } else {
        add_char_models(s.drop_last()).push(add_char_model(s.last()))
    }
}

pub proof fn lemma_add_char_models(s: Seq<char>)
    ensures
        add_char_models(s).len() == s.len(),
        forall|j: int| 0 <= j < s.len() ==> #[trigger] add_char_models(s)[j] == add_char_model(s[j]),
    decreases s.len(),
{
    if s.len() > 0 {
        lemma_add_char_models(s.drop_last());
    }
}

/// The action that adds character `ch` to the command line.
pub open spec fn add_char_model(ch: char) -> ActionModel {
    ActionModel::AddChar(ch)
}

impl MotionPlugin {
    pub fn new() -> (p: Self) {
        MotionPlugin()
    }

    /// The actions that a key asks for in `mode`, and whether the key is
    /// taken: see `key_actions`.
    pub fn on_key_input(&mut self, key: &KeyEvent, mode: Mode) -> (r: (Vec<MotionAction>, EventResult))
        ensures
            match key_actions(key, mode) {
                Some(acts) => r.1 is Handled && views_are(r.0@, acts),
                None => r.1 is Propagate && r.0@.len() == 0,
            },
    {
        if !key.state.is_pressed() {
            let v: Vec<MotionAction> = Vec::new();
            return (v, EventResult::Handled);
        }
        let acts = match mode {
            Mode::Normal => match &key.logical_key {
                LogicalKey::Character(c) => normal_actions(c.as_str()),
                LogicalKey::Named(k) => match arrow(*k) {
                    Some(mv) => one_move(mv),
                    None => None,
                },
                _ => None,
            },
            Mode::Insert => match &key.logical_key {
                LogicalKey::Character(c) => one_action(
                    MotionAction::Edit(EditAction::InsertText(c.clone())),
                ),
                LogicalKey::Named(k) => insert_named_actions(*k),
                _ => None,
            },
            Mode::Command => match &key.logical_key {
                LogicalKey::Character(c) => {
                    let cs = str_chars(c.as_str());
                    Some(add_chars(&cs))
                },
                LogicalKey::Named(k) => command_named_actions(*k),
                _ => None,
            },
        };
        match acts {
            Some(v) => (v, EventResult::Handled),
            None => (Vec::new(), EventResult::Propagate),
        }
    }
}

/// The single cursor motion that a normal-mode key asks for, if that is
/// what it asks for.
pub open spec fn key_motion(c: Seq<char>) -> Option<CursorMove> {
    match normal_text(c) {
        Some(acts) => if acts.len() == 1 && acts[0] is Move {
            Some(acts[0]->Move_0)
        } else {
            None
        },
        None => None,
    }
}

/// In normal mode "w", "a", "s" and "d" each ask for one cursor motion:
/// "w" moves the cursor one line up (it stays on the first line), "s" one
/// line down, "a" one character to the left (it stays at the start of the
/// line) and "d" one character to the right (it stays at the end of the
/// line); "w" and "s" keep the column, "a" and "d" the line. This holds in
/// every pane, at every cursor standing between two characters of its line.
pub proof fn law_normal_direction_keys(p: crate::modal::PaneState, t: Seq<char>, k: int)
    requires
        p.cursor.line_idx < usize::MAX,
        0 <= k <= crate::modal::line_of(t, p.cursor.line_idx as int).len(),
        p.cursor.byte_col_idx == crate::text::utf8_len(crate::modal::line_of(t, p.cursor.line_idx as int).take(k)),
    ensures
        ({
            let line = crate::modal::line_of(t, p.cursor.line_idx as int);
            let c = p.cursor;
            &&& key_motion("w"@) matches Some(mv) && crate::modal::moved(p, mv, t).cursor == (
            crate::data::BufferPosition { line_idx: if c.line_idx >= 1 { (c.line_idx - 1) as usize } else { 0 }, ..c })
            &&& key_motion("s"@) matches Some(mv) && crate::modal::moved(p, mv, t).cursor == (
            crate::data::BufferPosition { line_idx: (c.line_idx + 1) as usize, ..c })
            &&& key_motion("a"@) matches Some(mv) && crate::modal::moved(p, mv, t).cursor == (
            crate::data::BufferPosition {
                byte_col_idx: if k >= 1 { crate::text::utf8_len(line.take(k - 1)) as usize } else { 0 },
                ..c
            })
            &&& key_motion("d"@) matches Some(mv) && crate::modal::moved(p, mv, t).cursor == (
            crate::data::BufferPosition {
                byte_col_idx: if k < line.len() {
                    crate::text::utf8_len(line.take(k + 1)) as usize
                } else {
                    crate::text::utf8_len(line) as usize
                },
                ..c
            })
        }),
{
    reveal_strlit("w");
    reveal_strlit("a");
    reveal_strlit("s");
    reveal_strlit("d");
    let line = crate::modal::line_of(t, p.cursor.line_idx as int);
    crate::buffer::lemma_chars_within_boundary(line, k);
    assert(line.take(line.len() as int) =~= line);
    assert("a"@[0] != "w"@[0] && "s"@[0] != "w"@[0] && "s"@[0] != "a"@[0] && "d"@[0] != "w"@[0]
        && "d"@[0] != "a"@[0] && "d"@[0] != "s"@[0]);
    assert("a"@ != "w"@ && "s"@ != "w"@ && "s"@ != "a"@ && "d"@ != "w"@ && "d"@ != "a"@ && "d"@ != "s"@);
    assert(normal_text("w"@) == Some(seq![ActionModel::Move(CursorMove::Up { count: 1 })]));
    assert(key_motion("w"@) == Some(CursorMove::Up { count: 1 }));
    assert(key_motion("s"@) == Some(CursorMove::Down { count: 1 }));
    assert(key_motion("a"@) == Some(CursorMove::Left { count: 1 }));
    assert(key_motion("d"@) == Some(CursorMove::Right { count: 1 }));
}

/// The capitals of the direction keys move five times as far: "W" five
/// lines up, "S" five lines down, "A" five characters left, "D" five right.
pub proof fn law_normal_capital_direction_keys()
    ensures
        key_motion("W"@) == Some(CursorMove::Up { count: 5 }),
        key_motion("S"@) == Some(CursorMove::Down { count: 5 }),
        key_motion("A"@) == Some(CursorMove::Left { count: 5 }),
        key_motion("D"@) == Some(CursorMove::Right { count: 5 }),
{
    reveal_strlit("w");
    reveal_strlit("a");
    reveal_strlit("s");
    reveal_strlit("d");
    reveal_strlit("W");
    reveal_strlit("A");
    reveal_strlit("S");
    reveal_strlit("D");
    assert("W"@[0] != "w"@[0] && "W"@[0] != "a"@[0] && "W"@[0] != "s"@[0] && "W"@[0] != "d"@[0]);
    assert("A"@[0] != "w"@[0] && "A"@[0] != "a"@[0] && "A"@[0] != "s"@[0] && "A"@[0] != "d"@[0] && "A"@[0] != "W"@[0]);
    assert("S"@[0] != "w"@[0] && "S"@[0] != "a"@[0] && "S"@[0] != "s"@[0] && "S"@[0] != "d"@[0] && "S"@[0] != "W"@[0]
        && "S"@[0] != "A"@[0]);
    assert("D"@[0] != "w"@[0] && "D"@[0] != "a"@[0] && "D"@[0] != "s"@[0] && "D"@[0] != "d"@[0] && "D"@[0] != "W"@[0]
        && "D"@[0] != "A"@[0] && "D"@[0] != "S"@[0]);
    assert("W"@ != "w"@ && "W"@ != "a"@ && "W"@ != "s"@ && "W"@ != "d"@);
    assert("A"@ != "w"@ && "A"@ != "a"@ && "A"@ != "s"@ && "A"@ != "d"@ && "A"@ != "W"@);
    assert("S"@ != "w"@ && "S"@ != "a"@ && "S"@ != "s"@ && "S"@ != "d"@ && "S"@ != "W"@ && "S"@ != "A"@);
    assert("D"@ != "w"@ && "D"@ != "a"@ && "D"@ != "s"@ && "D"@ != "d"@ && "D"@ != "W"@ && "D"@ != "A"@
        && "D"@ != "S"@);
}

} // verus!
