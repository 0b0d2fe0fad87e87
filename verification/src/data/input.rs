use vstd::prelude::*;

verus! {

/// A physical key, by its position on the keyboard; a terminal may not know it.
#[derive(Debug, Clone, Copy, PartialEq, Eq, Structural, Hash)]
pub enum PhysicalKey {
    Code(KeyCode),
    Unknown,
}

/// The position of a key on a US keyboard.
#[derive(Debug, Clone, Copy, PartialEq, Eq, Structural, Hash)]
pub enum KeyCode {
    KeyA,
    KeyB,
    KeyC,
    KeyD,
    KeyE,
    KeyF,
    KeyG,
    KeyH,
    KeyI,
    KeyJ,
    KeyK,
    KeyL,
    KeyM,
    KeyN,
    KeyO,
    KeyP,
    KeyQ,
    KeyR,
    KeyS,
    KeyT,
    KeyU,
    KeyV,
    KeyW,
    KeyX,
    KeyY,
    KeyZ,
    Digit0,
    Digit1,
    Digit2,
    Digit3,
    Digit4,
    Digit5,
    Digit6,
    Digit7,
    Digit8,
    Digit9,
    F1,
    F2,
    F3,
    F4,
    F5,
    F6,
    F7,
    F8,
    F9,
    F10,
    F11,
    F12,
    ArrowUp,
    ArrowDown,
    ArrowLeft,
    ArrowRight,
    Home,
    End,
    PageUp,
    PageDown,
    Backspace,
    Delete,
    Enter,
    Tab,
    Escape,
    Insert,
    Space,
    Minus,
    Equal,
    BracketLeft,
    BracketRight,
    Backslash,
    Semicolon,
    Quote,
    Backquote,
    Comma,
    Period,
    Slash,
    ShiftLeft,
    ShiftRight,
    ControlLeft,
    ControlRight,
    AltLeft,
    AltRight,
    SuperLeft,
    SuperRight,
    Numpad0,
    Numpad1,
    Numpad2,
    Numpad3,
    Numpad4,
    Numpad5,
    Numpad6,
    Numpad7,
    Numpad8,
    Numpad9,
    NumpadAdd,
    NumpadSubtract,
    NumpadMultiply,
    NumpadDivide,
    NumpadEnter,
    NumpadDecimal,
    CapsLock,
    NumLock,
    ScrollLock,
    PrintScreen,
    Pause,
}

/// The key as the layout reads it: what the user meant.
#[derive(Debug)]
pub enum LogicalKey {
    /// A key with a name.
    Named(NamedKey),
    /// Text entered by the key, after layout mapping.
    Character(String),
    /// A dead key, waiting to compose.
    Dead(Option<char>),
    Unknown,
}

#[derive(Debug, Clone, Copy, PartialEq, Eq, Structural, Hash)]
pub enum NamedKey {
    Enter,
    Tab,
    BackTab,
    Space,
    Backspace,
    Delete,
    Escape,
    Insert,
    PrintScreen,
    ArrowUp,
    ArrowDown,
    ArrowLeft,
    ArrowRight,
    Home,
    End,
    PageUp,
    PageDown,
    F1,
    F2,
    F3,
    F4,
    F5,
    F6,
    F7,
    F8,
    F9,
    F10,
    F11,
    F12,
    CapsLock,
    NumLock,
    ScrollLock,
}

/// The state of the modifier keys.
#[derive(Debug, Clone, Copy, PartialEq, Eq, Structural, Hash)]
pub struct Modifiers {
    pub shift: bool,
    pub ctrl: bool,
    pub alt: bool,
    pub super_key: bool,
}

/// Where a key that occurs more than once sits.
#[derive(Debug, Clone, Copy, PartialEq, Eq, Structural, Hash)]
pub enum KeyLocation {
    Standard,
    Left,
    Right,
    Numpad,
}

/// Whether a key went down or up.
#[derive(Debug, Clone, Copy, PartialEq, Eq, Structural, Hash)]
pub enum ElementState {
    Pressed,
    Released,
}

impl ElementState {
    pub fn is_pressed(self) -> (r: bool)
        ensures
            r == (self is Pressed),
    {
        matches!(self, ElementState::Pressed)
    }
}

/// A key event.
#[derive(Debug)]
pub struct KeyEvent {
    /// The physical key; a terminal may report `Unknown`.
    pub physical_key: PhysicalKey,
    /// The key after layout mapping.
    pub logical_key: LogicalKey,
    /// The text that the key entered, if any.
    pub text: Option<String>,
    pub modifiers: Modifiers,
    pub location: KeyLocation,
    pub state: ElementState,
    /// Whether the key is held down and repeating.
    pub repeat: bool,
}

} // verus!
