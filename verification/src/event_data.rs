use vstd::prelude::*;

pub use crate::data::CommandLineAction;
use crate::data::Mode;
use crate::input::KeyEvent;
use crate::value::Value;

verus! {

/// A cursor motion by a count of steps.
#[derive(Debug, Clone, Copy, PartialEq, Eq, Structural)]
pub enum CursorMove {
    Up(usize),
    Down(usize),
    Left(usize),
    Right(usize),
    LineStart,
    LineEnd,
    FileTop,
    FileBottom,
    WordForward,
    WordBackward,
}

/// The id of a buffer.
#[derive(Debug, Clone, Copy, PartialEq, Eq, Structural, Hash)]
pub struct BufferId(pub usize);

/// A change of a buffer, by lines and byte columns.
#[derive(Debug)]
pub enum BufferOp {
    Insert { buffer_id: BufferId, line_idx: usize, byte_col_idx: usize, text: String },
    Remove {
        buffer_id: BufferId,
        start_line_idx: usize,
        start_byte_col_idx: usize,
        end_line_idx: usize,
        end_byte_col_idx: usize,
    },
    Close(BufferId),
    Save(BufferId),
}

/// An edit at the cursor.
#[derive(Debug)]
pub enum EditAction {
    InsertChar(char),
    InsertText(String),
    DeleteCharForward,
    DeleteCharBackward,
    DeleteWord,
    NewLine,
    NewLineBelow,
    NewLineAbove,
}

/// The payload of an event; `Nothing` when it carries none.
#[derive(Debug)]
pub enum EventData {
    Nothing,
    Key(KeyEvent),
    Motion(CursorMove),
    Mode(Mode),
    Edit(EditAction),
    BufferOp(BufferOp),
    CommandLine(CommandLineAction),
    Custom(Value),
}

} // verus!
