use vstd::prelude::*;

verus! {

/// The shape of the terminal cursor.
#[derive(Debug, Clone, Copy, PartialEq, Eq, Structural, Hash)]
pub enum CursorStyle {
    DefaultUserShape,
    BlinkingBlock,
    SteadyBlock,
    BlinkingUnderScore,
    SteadyUnderScore,
    BlinkingBar,
    SteadyBar,
}

impl CursorStyle {
    /// The style a terminal starts with.
    pub fn default_style() -> (r: CursorStyle)
        ensures
            r is DefaultUserShape,
    {
        CursorStyle::DefaultUserShape
    }
}

/// Where the cursor is and how it looks.
#[derive(Debug, Clone, Copy, PartialEq, Eq, Hash)]
pub struct CursorState {
    pub position: (u16, u16),
    pub style: CursorStyle,
}

/// A drawing instruction for the terminal, in cells.
#[derive(Debug)]
pub enum DrawCommand {
    DrawString { position: (u16, u16), text: String },
    SetCursor { position: (u16, u16), style: CursorStyle },
}

/// The content of a [`DrawCommand`].
pub enum CommandModel {
    Str((u16, u16), Seq<char>),
    Cursor((u16, u16), CursorStyle),
}

impl View for DrawCommand {
    type V = CommandModel;

    open spec fn view(&self) -> CommandModel {
        match self {
            DrawCommand::DrawString { position, text } => CommandModel::Str(*position, text@),
            DrawCommand::SetCursor { position, style } => CommandModel::Cursor(*position, *style),
        }
    }
}

} // verus!
