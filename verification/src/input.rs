//! Terminal input events, as the container list reads them.
use vstd::prelude::*;

verus! {

/// No modifier key held.
pub const MODIFIERS_NONE: u8 = 0;

/// The shift key held.
pub const MODIFIERS_SHIFT: u8 = 1;

/// The control key held.
pub const MODIFIERS_CONTROL: u8 = 2;

/// The alt key held.
pub const MODIFIERS_ALT: u8 = 4;

/// A key of the keyboard.
#[derive(Clone, Copy, Debug, PartialEq, Eq, Structural)]
pub enum KeyCode {
    Backspace,
    Enter,
    Left,
    Right,
    Up,
    Down,
    Home,
    End,
    PageUp,
    PageDown,
    Tab,
    BackTab,
    Delete,
    Insert,
    F(u8),
    Char(char),
    Null,
    Esc,
    CapsLock,
    ScrollLock,
    NumLock,
    PrintScreen,
    Pause,
    Menu,
    KeypadBegin,
    /// A media key (play, volume, ...).
    Media,
    /// A modifier key pressed on its own.
    Modifier,
}

/// Whether a key went down, repeats, or went up.
#[derive(Clone, Copy, Debug, PartialEq, Eq, Structural)]
pub enum KeyEventKind {
    Press,
    Repeat,
    Release,
}

/// A key event: the key, the modifier keys held (a set of `MODIFIERS_*` bits), and its kind.
#[derive(Clone, Copy, Debug, PartialEq, Eq, Structural)]
pub struct KeyEvent {
    pub code: KeyCode,
    pub modifiers: u8,
    pub kind: KeyEventKind,
}

/// A mouse button.
#[derive(Clone, Copy, Debug, PartialEq, Eq, Structural)]
pub enum MouseButton {
    Left,
    Right,
    Middle,
}

/// What the mouse did.
#[derive(Clone, Copy, Debug, PartialEq, Eq, Structural)]
pub enum MouseEventKind {
    Down(MouseButton),
    Up(MouseButton),
    Drag(MouseButton),
    Moved,
    ScrollDown,
    ScrollUp,
    ScrollLeft,
    ScrollRight,
}

/// A mouse event, at a cell of the terminal.
#[derive(Clone, Copy, Debug, PartialEq, Eq, Structural)]
pub struct MouseEvent {
    pub kind: MouseEventKind,
    pub column: u16,
    pub row: u16,
    pub modifiers: u8,
}

/// An event of the terminal.
#[derive(Clone, Debug, PartialEq, Eq)]
pub enum Event {
    FocusGained,
    FocusLost,
    Key(KeyEvent),
    Mouse(MouseEvent),
    Paste(String),
    Resize(u16, u16),
}

/// The number that stands for a key without modifiers: a character's code point, or a number
/// past every code point for the other keys.
pub open spec fn key_code_number(code: KeyCode) -> int {
    match code {
        KeyCode::Char(c) => c as int,
        KeyCode::F(n) => 0x11_0000 + n as int,
        KeyCode::Backspace => 0x11_0100,
        KeyCode::Enter => 0x11_0101,
        KeyCode::Left => 0x11_0102,
        KeyCode::Right => 0x11_0103,
        KeyCode::Up => 0x11_0104,
        KeyCode::Down => 0x11_0105,
        KeyCode::Home => 0x11_0106,
        KeyCode::End => 0x11_0107,
        KeyCode::PageUp => 0x11_0108,
        KeyCode::PageDown => 0x11_0109,
        KeyCode::Tab => 0x11_010a,
        KeyCode::BackTab => 0x11_010b,
        KeyCode::Delete => 0x11_010c,
        KeyCode::Insert => 0x11_010d,
        KeyCode::Null => 0x11_010e,
        KeyCode::Esc => 0x11_010f,
        KeyCode::CapsLock => 0x11_0110,
        KeyCode::ScrollLock => 0x11_0111,
        KeyCode::NumLock => 0x11_0112,
        KeyCode::PrintScreen => 0x11_0113,
        KeyCode::Pause => 0x11_0114,
        KeyCode::Menu => 0x11_0115,
        KeyCode::KeypadBegin => 0x11_0116,
        KeyCode::Media => 0x11_0117,
        KeyCode::Modifier => 0x11_0118,
    }
}

/// The number that stands for a key with its modifiers: the modifiers above bit 32, the key
/// below.
pub open spec fn key_number(code: KeyCode, modifiers: u8) -> u64 {
    (modifiers as int * 0x1_0000_0000 + key_code_number(code)) as u64
}

/// The number that stands for a key with its modifiers.
pub fn key_id(code: KeyCode, modifiers: u8) -> (r: u64)
    ensures
        r == key_number(code, modifiers),
{
    let code_number: u64 = match code {
        KeyCode::Char(c) => c as u64,
        KeyCode::F(n) => 0x11_0000 + n as u64,
        KeyCode::Backspace => 0x11_0100,
        KeyCode::Enter => 0x11_0101,
        KeyCode::Left => 0x11_0102,
        KeyCode::Right => 0x11_0103,
        KeyCode::Up => 0x11_0104,
        KeyCode::Down => 0x11_0105,
        KeyCode::Home => 0x11_0106,
        KeyCode::End => 0x11_0107,
        KeyCode::PageUp => 0x11_0108,
        KeyCode::PageDown => 0x11_0109,
        KeyCode::Tab => 0x11_010a,
        KeyCode::BackTab => 0x11_010b,
        KeyCode::Delete => 0x11_010c,
        KeyCode::Insert => 0x11_010d,
        KeyCode::Null => 0x11_010e,
        KeyCode::Esc => 0x11_010f,
        KeyCode::CapsLock => 0x11_0110,
        KeyCode::ScrollLock => 0x11_0111,
        KeyCode::NumLock => 0x11_0112,
        KeyCode::PrintScreen => 0x11_0113,
        KeyCode::Pause => 0x11_0114,
        KeyCode::Menu => 0x11_0115,
        KeyCode::KeypadBegin => 0x11_0116,
        KeyCode::Media => 0x11_0117,
        KeyCode::Modifier => 0x11_0118,
    };
    modifiers as u64 * 0x1_0000_0000 + code_number
}

/// Distinct keys, or distinct modifiers, stand for distinct numbers.
pub proof fn lemma_key_number_injective(c1: KeyCode, m1: u8, c2: KeyCode, m2: u8)
    requires
        key_number(c1, m1) == key_number(c2, m2),
    ensures
        c1 == c2,
        m1 == m2,
{
}

} // verus!
