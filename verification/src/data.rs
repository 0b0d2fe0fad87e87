use vstd::prelude::*;

pub mod id;
pub mod input;
pub mod tui_layout;

use self::id::BufferId;
use crate::value::{Value, ValueModel};

verus! {

/// The editing mode of the modal editor.
#[derive(Debug, Clone, Copy, PartialEq, Eq, Structural)]
pub enum Mode {
    Normal,
    Insert,
    Command,
}

impl Mode {
    /// The mode's lower-case name.
    pub fn name(self) -> (r: &'static str)
        ensures
            self is Normal ==> r@ == "normal"@,
            self is Insert ==> r@ == "insert"@,
            self is Command ==> r@ == "command"@,
    {
        match self {
            Mode::Normal => "normal",
            Mode::Insert => "insert",
            Mode::Command => "command",
        }
    }

    /// The default mode.
    pub fn default_mode() -> (r: Mode)
        ensures
            r is Normal,
    {
        Mode::Normal
    }
}

/// A position in a buffer: a line and a byte offset within it.
#[derive(Debug, Clone, Copy, PartialEq, Eq, Structural, PartialOrd, Ord, Hash)]
pub struct BufferPosition {
    pub line_idx: usize,
    pub byte_col_idx: usize,
}

/// A cursor motion; counts default to one.
#[derive(Debug, Clone, Copy, PartialEq, Eq, Structural)]
pub enum CursorMove {
    Up { count: usize },
    Down { count: usize },
    Left { count: usize },
    Right { count: usize },
    LineStart,
    LineEnd,
    FileTop,
    FileBottom,
    WordForward,
    WordBackward,
}

/// The count of a motion when none is given.
pub fn one() -> (r: usize)
    ensures
        r == 1,
{
    1
}

/// The key that lets its holder edit a locked buffer.
#[derive(Debug, Clone, Copy, PartialEq, Eq, Structural, Hash)]
pub struct LockToken(pub u64);

/// An edit at the cursor.
#[derive(Debug)]
pub enum EditAction {
    InsertText(String),
    DeleteCharForward,
    DeleteCharBackward,
    DeleteWord,
    NewLine,
    NewLineBelow,
    NewLineAbove,
    Undo,
    Redo,
}

/// An edit of the command line. `AddChar` inserts one character and
/// `Backspace` deletes backward, as `InsertText` and `DeleteCharBackward` do.
#[derive(Debug)]
pub enum CommandLineAction {
    AddChar(char),
    InsertText(String),
    Backspace,
    DeleteCharForward,
    DeleteCharBackward,
    Execute,
    Clear,
}

/// A change of a buffer's content, announced to the other plugins.
#[derive(Debug)]
pub enum BufferChange {
    Insert { buffer_id: BufferId, start_position: BufferPosition, end_position: BufferPosition },
    Remove { buffer_id: BufferId, position: BufferPosition, text: String },
    Save(BufferId),
    Reset(BufferId),
}

/// A value holding one named entry.
fn single_entry(name: &str, v: Value) -> (r: Value)
    ensures
        r@ == ValueModel::Dict(seq![(name@, v@)]),
{
    let mut entries: Vec<(String, Value)> = Vec::new();
    entries.push((name.to_owned(), v));
    proof {
        let e = entries@;
        assert(e.drop_last() =~= Seq::<(String, Value)>::empty());
        assert(Value::entry_models(e.drop_last()) =~= Seq::<(Seq<char>, ValueModel)>::empty());
    }
    let r = Value::Dict(entries);
    assert(Value::entry_models(entries@) =~= seq![(name@, v@)]);
    r
}

/// Appends a named entry to the entries of a value under construction.
fn push_entry(entries: &mut Vec<(String, Value)>, name: &str, v: Value)
    ensures
        final(entries)@.len() == old(entries)@.len() + 1,
        Value::entry_models(final(entries)@) == Value::entry_models(old(entries)@).push((name@, v@)),
{
    entries.push((name.to_owned(), v));
    proof {
        assert(final(entries)@.drop_last() =~= old(entries)@);
    }
}

impl BufferPosition {
    /// The value of a position: a map from field names to numbers.
    pub open spec fn value_model(self) -> ValueModel {
        ValueModel::Dict(
            seq![
                ("line_idx"@, ValueModel::Uint(self.line_idx as u64)),
                ("byte_col_idx"@, ValueModel::Uint(self.byte_col_idx as u64)),
            ],
        )
    }

    pub fn to_value(self) -> (v: Value)
        ensures
            v@ == self.value_model(),
    {
        let mut entries: Vec<(String, Value)> = Vec::new();
        push_entry(&mut entries, "line_idx", Value::Uint(self.line_idx as u64));
        push_entry(&mut entries, "byte_col_idx", Value::Uint(self.byte_col_idx as u64));
        assert(Value::entry_models(Seq::<(String, Value)>::empty()) =~= Seq::<(Seq<char>, ValueModel)>::empty());
        let v = Value::Dict(entries);
        assert(Value::entry_models(entries@) =~= seq![
                ("line_idx"@, ValueModel::Uint(self.line_idx as u64)),
                ("byte_col_idx"@, ValueModel::Uint(self.byte_col_idx as u64)),
            ]);
        v
    }
}

impl BufferChange {
    /// The value of a change: a map from the variant's name to its payload,
    /// a map of field names for the struct variants.
    pub open spec fn value_model(&self) -> ValueModel {
        match self {
            BufferChange::Insert { buffer_id, start_position, end_position } => ValueModel::Dict(
                seq![
                    (
                        "Insert"@,
                        ValueModel::Dict(
                            seq![
                                ("buffer_id"@, buffer_id.value_model()),
                                ("start_position"@, start_position.value_model()),
                                ("end_position"@, end_position.value_model()),
                            ],
                        ),
                    ),
                ],
            ),
            BufferChange::Remove { buffer_id, position, text } => ValueModel::Dict(
                seq![
                    (
                        "Remove"@,
                        ValueModel::Dict(
                            seq![
                                ("buffer_id"@, buffer_id.value_model()),
                                ("position"@, position.value_model()),
                                ("text"@, ValueModel::Str(text@)),
                            ],
                        ),
                    ),
                ],
            ),
            BufferChange::Save(id) => ValueModel::Dict(seq![("Save"@, id.value_model())]),
            BufferChange::Reset(id) => ValueModel::Dict(seq![("Reset"@, id.value_model())]),
        }
    }

    pub fn to_value(&self) -> (v: Value)
        ensures
            v@ == self.value_model(),
    {
        let ghost empty = Seq::<(String, Value)>::empty();
        assert(Value::entry_models(empty) =~= Seq::<(Seq<char>, ValueModel)>::empty());
        match self {
            BufferChange::Insert { buffer_id, start_position, end_position } => {
                let mut fields: Vec<(String, Value)> = Vec::new();
                push_entry(&mut fields, "buffer_id", buffer_id.to_value());
                push_entry(&mut fields, "start_position", start_position.to_value());
                push_entry(&mut fields, "end_position", end_position.to_value());
                let inner = Value::Dict(fields);
                assert(Value::entry_models(fields@) =~= seq![
                    ("buffer_id"@, buffer_id.value_model()),
                    ("start_position"@, start_position.value_model()),
                    ("end_position"@, end_position.value_model()),
                ]);
                single_entry("Insert", inner)
            },
            BufferChange::Remove { buffer_id, position, text } => {
                let mut fields: Vec<(String, Value)> = Vec::new();
                push_entry(&mut fields, "buffer_id", buffer_id.to_value());
                push_entry(&mut fields, "position", position.to_value());
                push_entry(&mut fields, "text", Value::Str(text.clone()));
                let inner = Value::Dict(fields);
                assert(Value::entry_models(fields@) =~= seq![
                    ("buffer_id"@, buffer_id.value_model()),
                    ("position"@, position.value_model()),
                    ("text"@, ValueModel::Str(text@)),
                ]);
                single_entry("Remove", inner)
            },
            BufferChange::Save(id) => single_entry("Save", id.to_value()),
            BufferChange::Reset(id) => single_entry("Reset", id.to_value()),
        }
    }
}

/// Which plugins serve a new floating window and its pane.
#[derive(Debug)]
pub struct OpenFloatWindowConfig {
    pub float_window_handler: String,
    pub pane_handler: String,
}

impl OpenFloatWindowConfig {
    /// The value of a configuration: a map from field names to strings.
    pub open spec fn value_model(&self) -> ValueModel {
        ValueModel::Dict(
            seq![
                ("float_window_handler"@, ValueModel::Str(self.float_window_handler@)),
                ("pane_handler"@, ValueModel::Str(self.pane_handler@)),
            ],
        )
    }

    pub fn to_value(&self) -> (v: Value)
        ensures
            v@ == self.value_model(),
    {
        let mut entries: Vec<(String, Value)> = Vec::new();
        push_entry(&mut entries, "float_window_handler", Value::Str(self.float_window_handler.clone()));
        push_entry(&mut entries, "pane_handler", Value::Str(self.pane_handler.clone()));
        assert(Value::entry_models(Seq::<(String, Value)>::empty()) =~= Seq::<(Seq<char>, ValueModel)>::empty());
        let v = Value::Dict(entries);
        assert(Value::entry_models(entries@) =~= seq![
            ("float_window_handler"@, ValueModel::Str(self.float_window_handler@)),
            ("pane_handler"@, ValueModel::Str(self.pane_handler@)),
        ]);
        v
    }
}

} // verus!
