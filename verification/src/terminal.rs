//! What the terminal sends: replies to the queries sent when it starts, and
//! the input text of the key presses its backend reports.

use vstd::prelude::*;
use vstd::string::*;
use vstd::utf8::*;

verus! {

/// An ASCII digit.
pub open spec fn ascii_digit(c: u8) -> bool {
    0x30 <= c && c <= 0x39
}

/// The reply to a Kitty keyboard protocol query: `ESC [ ?`, digits, `u`.
pub open spec fn kitty_response(b: Seq<u8>) -> bool {
    &&& b.len() >= 4
    &&& b[0] == 0x1b
    &&& b[1] == 0x5b
    &&& b[2] == 0x3f
    &&& b[b.len() - 1] == 0x75
    &&& forall|i: int| 3 <= i < b.len() - 1 ==> ascii_digit(#[trigger] b[i])
}

/// Whether `data` is the terminal's reply to a Kitty keyboard protocol
/// query.
pub fn check_kitty_response(data: &str) -> (r: bool)
    ensures
        r == kitty_response(encode_utf8(data@)),
{
    let b = data.as_bytes();
    let n = b.len();
    if n < 4 {
        return false;
    }
    if b[0] != 0x1b || b[1] != 0x5b || b[2] != 0x3f {
        return false;
    }
    if b[n - 1] != 0x75 {
        return false;
    }
    let mut i: usize = 3;
    while i < n - 1
        invariant
            n == b@.len(),
            b@ == encode_utf8(data@),
            n >= 4,
            b@[0] == 0x1b && b@[1] == 0x5b && b@[2] == 0x3f && b@[n - 1] == 0x75,
            3 <= i <= n - 1,
            forall|k: int| 3 <= k < i ==> ascii_digit(#[trigger] b@[k]),
        decreases n - 1 - i,
    {
        if b[i] < 0x30 || b[i] > 0x39 {
            assert(!ascii_digit(b@[i as int]));
            return false;
        }
        i = i + 1;
    }
    true
}

/// A key as the terminal backend reports it.
#[derive(Debug, Clone, Copy, PartialEq, Eq)]
pub enum KeyCode {
    Char(char),
    Enter,
    Tab,
    BackTab,
    Backspace,
    Esc,
    Up,
    Down,
    Right,
    Left,
    Home,
    End,
    PageUp,
    PageDown,
    Delete,
    Insert,
    /// A function key, F1 to F12 (and others the backend knows).
    F(u8),
    /// Any other key.
    Other,
}

/// A key press: the key and whether Control and Alt were held.
#[derive(Debug, Clone, Copy, PartialEq, Eq)]
pub struct KeyPress {
    pub code: KeyCode,
    pub ctrl: bool,
    pub alt: bool,
}

/// The bytes a terminal sends for `k`, as text: Control with a lowercase
/// letter gives the control character, Alt prefixes Escape, the named keys
/// give their escape sequences, and keys without one give nothing.
pub open spec fn key_string(k: KeyPress) -> Seq<char> {
    match k.code {
        KeyCode::Char(c) => if k.ctrl && 'a' <= c <= 'z' {
            seq![((c as u32) - 0x60) as char]
        } else if k.alt {
            seq!['\x1b', c]
        } else {
            seq![c]
        },
        KeyCode::Enter => "\r"@,
        KeyCode::Tab => "\t"@,
        KeyCode::BackTab => "\x1b[Z"@,
        KeyCode::Backspace => "\x7f"@,
        KeyCode::Esc => "\x1b"@,
        KeyCode::Up => "\x1b[A"@,
        KeyCode::Down => "\x1b[B"@,
        KeyCode::Right => "\x1b[C"@,
        KeyCode::Left => "\x1b[D"@,
        KeyCode::Home => "\x1b[H"@,
        KeyCode::End => "\x1b[F"@,
        KeyCode::PageUp => "\x1b[5~"@,
        KeyCode::PageDown => "\x1b[6~"@,
        KeyCode::Delete => "\x1b[3~"@,
        KeyCode::Insert => "\x1b[2~"@,
        KeyCode::F(n) => if n == 1 {
            "\x1bOP"@
        } else if n == 2 {
            "\x1bOQ"@
        } else if n == 3 {
            "\x1bOR"@
        } else if n == 4 {
            "\x1bOS"@
        } else if n == 5 {
            "\x1b[15~"@
        } else if n == 6 {
            "\x1b[17~"@
        } else if n == 7 {
            "\x1b[18~"@
        } else if n == 8 {
            "\x1b[19~"@
        } else if n == 9 {
            "\x1b[20~"@
        } else if n == 10 {
            "\x1b[21~"@
        } else if n == 11 {
            "\x1b[23~"@
        } else if n == 12 {
            "\x1b[24~"@
        } else {
            Seq::empty()
        },
        KeyCode::Other => Seq::empty(),
    }
}

/// The input text for a key press reported by the terminal backend.
pub fn crossterm_key_to_string(key: &KeyPress) -> (r: String)
    ensures
        r@ == key_string(*key),
{
    match key.code {
        KeyCode::Char(c) => {
            if key.ctrl && 'a' <= c && c <= 'z' {
                let code: u32 = (c as u32) - 0x60;
                let mut s = String::new();
                match crate::strs::char_from_code(code) {
                    Some(ch) => s.push(ch),
                    None => {},
                }
                return s;
            }
            let mut s = String::new();
            if key.alt {
                s.push('\x1b');
            }
            s.push(c);
            proof {
                if key.alt {
                    assert(s@ =~= seq!['\x1b', c]);
                } else {
                    assert(s@ =~= seq![c]);
                }
            }
            s
        },
        KeyCode::Enter => String::from_str("\r"),
        KeyCode::Tab => String::from_str("\t"),
        KeyCode::BackTab => String::from_str("\x1b[Z"),
        KeyCode::Backspace => String::from_str("\x7f"),
        KeyCode::Esc => String::from_str("\x1b"),
        KeyCode::Up => String::from_str("\x1b[A"),
        KeyCode::Down => String::from_str("\x1b[B"),
        KeyCode::Right => String::from_str("\x1b[C"),
        KeyCode::Left => String::from_str("\x1b[D"),
        KeyCode::Home => String::from_str("\x1b[H"),
        KeyCode::End => String::from_str("\x1b[F"),
        KeyCode::PageUp => String::from_str("\x1b[5~"),
        KeyCode::PageDown => String::from_str("\x1b[6~"),
        KeyCode::Delete => String::from_str("\x1b[3~"),
        KeyCode::Insert => String::from_str("\x1b[2~"),
        KeyCode::F(n) => {
            if n == 1 {
                String::from_str("\x1bOP")
            } else if n == 2 {
                String::from_str("\x1bOQ")
            } else if n == 3 {
                String::from_str("\x1bOR")
            } else if n == 4 {
                String::from_str("\x1bOS")
            } else if n == 5 {
                String::from_str("\x1b[15~")
            } else if n == 6 {
                String::from_str("\x1b[17~")
            } else if n == 7 {
                String::from_str("\x1b[18~")
            } else if n == 8 {
                String::from_str("\x1b[19~")
            } else if n == 9 {
                String::from_str("\x1b[20~")
            } else if n == 10 {
                String::from_str("\x1b[21~")
            } else if n == 11 {
                String::from_str("\x1b[23~")
            } else if n == 12 {
                String::from_str("\x1b[24~")
            } else {
                String::new()
            }
        },
        KeyCode::Other => String::new(),
    }
}

} // verus!
