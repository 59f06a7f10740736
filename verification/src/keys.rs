//! The keys of the line editor, as the bytes of a terminal in raw mode give
//! them.

use vstd::prelude::*;

verus! {

/// A key that was pressed.
#[derive(Debug, Clone, Copy, PartialEq, Eq, Structural)]
pub enum KeyEvent {
    Char(char),
    CtrlC,
    CtrlD,
    Backspace,
    Enter,
    ArrowUp,
    ArrowDown,
    ArrowLeft,
    ArrowRight,
    Unknown,
}

/// The byte that starts an escape sequence.
pub const ESCAPE: u8 = 27;

/// The key that a byte which starts no escape sequence stands for.
pub open spec fn key_of(byte: u8) -> KeyEvent {
    if byte == 3 {
        KeyEvent::CtrlC
    } else if byte == 13 || byte == 10 {
        KeyEvent::Enter
    } else if byte == 127 {
        KeyEvent::Backspace
    } else if byte < 128 {
        KeyEvent::Char(byte as char)
    } else {
        KeyEvent::Unknown
    }
}

/// The key that the two bytes after an escape stand for, `read` of them
/// having come.
pub open spec fn arrow_of(read: usize, first: u8, second: u8) -> KeyEvent {
    if read == 2 && first == 0x5B {
        if second == 0x41 {
            KeyEvent::ArrowUp
        } else if second == 0x42 {
            KeyEvent::ArrowDown
        } else if second == 0x43 {
            KeyEvent::ArrowRight
        } else if second == 0x44 {
            KeyEvent::ArrowLeft
        } else {
            KeyEvent::Unknown
        }
    } else {
        KeyEvent::Unknown
    }
}

/// The key for what a read of one byte gave: the end of the input is
/// Ctrl-D. Nothing is given for the byte that starts an escape sequence:
/// two more bytes are then to be read and handed to `escape_key`.
pub fn plain_key(read: usize, byte: u8) -> (key: Option<KeyEvent>)
    ensures
        key == if read == 0 {
            Some(KeyEvent::CtrlD)
        } else if read != 1 {
            Some(KeyEvent::Unknown)
        } else if byte == ESCAPE {
            None
        } else {
            Some(key_of(byte))
        },
{
    if read == 0 {
        Some(KeyEvent::CtrlD)
    } else if read != 1 {
        Some(KeyEvent::Unknown)
    } else if byte == 3 {
        Some(KeyEvent::CtrlC)
    } else if byte == 13 || byte == 10 {
        Some(KeyEvent::Enter)
    } else if byte == 127 {
        Some(KeyEvent::Backspace)
    } else if byte == ESCAPE {
        None
    } else if byte < 128 {
        Some(KeyEvent::Char(byte as char))
    } else {
        Some(KeyEvent::Unknown)
    }
}

/// The key for the two bytes that were read after an escape.
pub fn escape_key(read: usize, first: u8, second: u8) -> (key: KeyEvent)
    ensures
        key == arrow_of(read, first, second),
{
    if read == 2 && first == 0x5B {
        if second == 0x41 {
            KeyEvent::ArrowUp
        } else if second == 0x42 {
            KeyEvent::ArrowDown
        } else if second == 0x43 {
            KeyEvent::ArrowRight
        } else if second == 0x44 {
            KeyEvent::ArrowLeft
        } else {
            KeyEvent::Unknown
        }
    } else {
        KeyEvent::Unknown
    }
}

} // verus!
