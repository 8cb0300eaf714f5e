//! Kitty protocol parsing and key identification.

use vstd::prelude::*;
use vstd::string::*;

use super::legacy::{legacy_lookup, legacy_name};
use super::types::{
    ARROW_DOWN, ARROW_LEFT, ARROW_RIGHT, ARROW_UP, CP_BACKSPACE, CP_ENTER, CP_ESCAPE, CP_KP_0, CP_KP_1, CP_KP_2, CP_KP_3, CP_KP_4, CP_KP_5, CP_KP_6, CP_KP_7, CP_KP_8, CP_KP_9, CP_KP_DECIMAL, CP_KP_ENTER, CP_SPACE, CP_TAB, FUNC_CLEAR, FUNC_DELETE, FUNC_END, FUNC_F1, FUNC_F10, FUNC_F11, FUNC_F12, FUNC_F2, FUNC_F3, FUNC_F4, FUNC_F5, FUNC_F6, FUNC_F7, FUNC_F8, FUNC_F9, FUNC_HOME, FUNC_INSERT, FUNC_PAGE_DOWN, FUNC_PAGE_UP, LOCK_MASK, MOD_ALT, MOD_CTRL, MOD_SHIFT, ParsedKittySequence, decimal_value, digit_run_end, digits_at, optional_digits_at, is_digit, lemma_digits_at_range, parse_digits, parse_optional_digits, is_symbol_key, symbol_key,
};

verus! {

pub open spec fn byte_char(b: u8) -> char {
    b as char
}

/// The key name of a single input byte.
pub open spec fn single_byte_key(code: u8) -> Option<Seq<char>> {
    if code == 0x1b {
        Some("escape"@)
    } else if code == 9 {
        Some("tab"@)
    } else if code == 13 || code == 10 {
        Some("enter"@)
    } else if code == 0 {
        Some("ctrl+space"@)
    } else if code == 32 {
        Some("space"@)
    } else if code == 0x7f || code == 8 {
        Some("backspace"@)
    } else if code == 28 {
        Some("ctrl+\\"@)
    } else if code == 29 {
        Some("ctrl+]"@)
    } else if code == 30 {
        Some("ctrl+^"@)
    } else if code == 31 {
        Some("ctrl+_"@)
    } else if 1 <= code <= 26 {
        Some("ctrl+"@.push(byte_char((code + 96) as u8)))
    } else if 33 <= code <= 126 {
        Some(seq![byte_char(code)])
    } else {
        None
    }
}

/// The key name of `ESC` followed by one byte.
pub open spec fn esc_pair_key(code: u8, kitty_protocol_active: bool) -> Option<Seq<char>> {
    if code == 0x7f || code == 8 {
        Some("alt+backspace"@)
    } else if code == 13 {
        Some("alt+enter"@)
    } else if code == 9 {
        Some("alt+tab"@)
    } else if kitty_protocol_active {
        None
    } else if code == 32 {
        Some("alt+space"@)
    } else if code == 66 {
        Some("alt+left"@)
    } else if code == 70 {
        Some("alt+right"@)
    } else if 1 <= code <= 26 {
        Some("ctrl+alt+"@.push(byte_char((code + 96) as u8)))
    } else if 97 <= code <= 122 {
        Some("alt+"@.push(byte_char(code)))
    } else {
        None
    }
}

/// The static name of a key code.
pub open spec fn key_name(cp: i32) -> Option<Seq<char>> {
    if cp == CP_ESCAPE {
        Some("escape"@)
    } else if cp == CP_TAB {
        Some("tab"@)
    } else if cp == CP_ENTER || cp == CP_KP_ENTER {
        Some("enter"@)
    } else if cp == CP_SPACE {
        Some("space"@)
    } else if cp == CP_BACKSPACE {
        Some("backspace"@)
    } else if cp == CP_KP_0 || cp == FUNC_INSERT {
        Some("insert"@)
    } else if cp == CP_KP_1 || cp == FUNC_END {
        Some("end"@)
    } else if cp == CP_KP_2 || cp == ARROW_DOWN {
        Some("down"@)
    } else if cp == CP_KP_3 || cp == FUNC_PAGE_DOWN {
        Some("pageDown"@)
    } else if cp == CP_KP_4 || cp == ARROW_LEFT {
        Some("left"@)
    } else if cp == CP_KP_5 || cp == FUNC_CLEAR {
        Some("clear"@)
    } else if cp == CP_KP_6 || cp == ARROW_RIGHT {
        Some("right"@)
    } else if cp == CP_KP_7 || cp == FUNC_HOME {
        Some("home"@)
    } else if cp == CP_KP_8 || cp == ARROW_UP {
        Some("up"@)
    } else if cp == CP_KP_9 || cp == FUNC_PAGE_UP {
        Some("pageUp"@)
    } else if cp == CP_KP_DECIMAL || cp == FUNC_DELETE {
        Some("delete"@)
    } else if cp == FUNC_F1 {
        Some("f1"@)
    } else if cp == FUNC_F2 {
        Some("f2"@)
    } else if cp == FUNC_F3 {
        Some("f3"@)
    } else if cp == FUNC_F4 {
        Some("f4"@)
    } else if cp == FUNC_F5 {
        Some("f5"@)
    } else if cp == FUNC_F6 {
        Some("f6"@)
    } else if cp == FUNC_F7 {
        Some("f7"@)
    } else if cp == FUNC_F8 {
        Some("f8"@)
    } else if cp == FUNC_F9 {
        Some("f9"@)
    } else if cp == FUNC_F10 {
        Some("f10"@)
    } else if cp == FUNC_F11 {
        Some("f11"@)
    } else if cp == FUNC_F12 {
        Some("f12"@)
    } else if 33 <= cp <= 126 {
        Some(seq![byte_char(cp as u8)])
    } else {
        None
    }
}

/// A key name with its modifier prefix, in the order shift, ctrl, alt.
pub open spec fn with_mods(mods: u32, key: Seq<char>) -> Seq<char> {
    (if mods & MOD_SHIFT != 0 {
        "shift+"@
    } else {
        Seq::empty()
    }) + (if mods & MOD_CTRL != 0 {
        "ctrl+"@
    } else {
        Seq::empty()
    }) + (if mods & MOD_ALT != 0 {
        "alt+"@
    } else {
        Seq::empty()
    }) + key
}

pub open spec fn to_i32(v: u32) -> Option<i32> {
    if v <= i32::MAX {
        Some(v as i32)
    } else {
        None
    }
}

/// Unicode scalar values: what `char::from_u32` accepts.
pub open spec fn valid_scalar(cp: u32) -> bool {
    cp <= 0x10FFFF && !(0xD800 <= cp <= 0xDFFF)
}

/// CSI-u: optional `:shifted[:base]` after the code point.
pub open spec fn csi_u_alt_keys(b: Seq<u8>, i: int, end: int) -> Option<(Option<i32>, Option<i32>, int)> {
    if i < end && b[i] == 58 {
        let (sv, j) = optional_digits_at(b, i + 1, end);
        let shifted = match sv {
            Some(v) => to_i32(v),
            None => None,
        };
        if j < end && b[j] == 58 {
            match digits_at(b, j + 1, end) {
                None => None,
                Some((bv, k)) => match to_i32(bv) {
                    Some(base) => Some((shifted, Some(base), k)),
                    None => None,
                },
            }
        } else {
            Some((shifted, None, j))
        }
    } else {
        Some((None, None, i))
    }
}

/// CSI-u: optional `;modifiers[:event]`.
pub open spec fn csi_u_mods(b: Seq<u8>, i: int, end: int) -> Option<(u32, Option<u32>, int)> {
    if i < end && b[i] == 59 {
        let m = if i + 1 < end && is_digit(b[i + 1]) {
            digits_at(b, i + 1, end)
        } else {
            Some((1u32, i + 1))
        };
        match m {
            None => None,
            Some((mv, j)) => if j < end && b[j] == 58 {
                match digits_at(b, j + 1, end) {
                    None => None,
                    Some((ev, k)) => Some((mv, Some(ev), k)),
                }
            } else {
                Some((mv, None, j))
            },
        }
    } else {
        Some((1u32, None, i))
    }
}

/// CSI-u: the associated text code points from `i` on; only a single one
/// that is printable and a valid scalar is kept.
pub open spec fn csi_u_text_from(b: Seq<u8>, i: int, end: int, tc: Option<i32>, seen: bool) -> Option<
    (Option<i32>, int),
>
    decreases end - i,
{
    if end > b.len() || i < 0 {
        None
    } else if i >= end {
        Some((tc, i))
    } else if b[i] == 58 {
        csi_u_text_from(b, i + 1, end, tc, seen)
    } else {
        match digits_at(b, i, end) {
            None => None,
            Some((cp, j)) => {
                proof {
                    lemma_digits_at_range(b, i, end);
                }
                let tc2 = if !seen {
                    if cp >= 32 && cp <= i32::MAX && valid_scalar(cp) {
                        Some(cp as i32)
                    } else {
                        tc
                    }
                } else {
                    None
                };
                let j2 = if j < end && b[j] == 58 {
                    j + 1
                } else {
                    j
                };
                csi_u_text_from(b, j2, end, tc2, true)
            },
        }
    }
}

/// `CSI code[:shifted[:base]][;mods[:event][;text]] u`.
pub open spec fn csi_u_spec(b: Seq<u8>) -> Option<ParsedKittySequence> {
    let end = b.len() - 1;
    match digits_at(b, 2, end) {
        None => None,
        Some((cpu, i1)) => match to_i32(cpu) {
            None => None,
            Some(codepoint) => match csi_u_alt_keys(b, i1, end) {
                None => None,
                Some((shifted, base, i2)) => match csi_u_mods(b, i2, end) {
                    None => None,
                    Some((mv, ev, i3)) => {
                        let text = if i3 < end && b[i3] == 59 {
                            csi_u_text_from(b, i3 + 1, end, None, false)
                        } else {
                            Some((None, i3))
                        };
                        match text {
                            None => None,
                            Some((tc, i4)) => if i4 != end || mv == 0 {
                                None
                            } else {
                                Some(
                                    ParsedKittySequence {
                                        codepoint,
                                        shifted_key: shifted,
                                        base_layout_key: base,
                                        text_codepoint: tc,
                                        modifier: (mv - 1) as u32,
                                        event_type: ev,
                                    },
                                )
                            },
                        }
                    },
                },
            },
        },
    }
}

/// Optional `:event` at `i`.
pub open spec fn event_at(b: Seq<u8>, i: int, end: int) -> Option<(Option<u32>, int)> {
    if i < end && b[i] == 58 {
        match digits_at(b, i + 1, end) {
            None => None,
            Some((ev, k)) => Some((Some(ev), k)),
        }
    } else {
        Some((None, i))
    }
}

pub open spec fn letter_code(c: u8) -> Option<i32> {
    if c == 65 {
        Some(ARROW_UP)
    } else if c == 66 {
        Some(ARROW_DOWN)
    } else if c == 67 {
        Some(ARROW_RIGHT)
    } else if c == 68 {
        Some(ARROW_LEFT)
    } else if c == 72 {
        Some(FUNC_HOME)
    } else if c == 70 {
        Some(FUNC_END)
    } else if c == 69 {
        Some(FUNC_CLEAR)
    } else if c == 80 {
        Some(FUNC_F1)
    } else if c == 81 {
        Some(FUNC_F2)
    } else if c == 82 {
        Some(FUNC_F3)
    } else if c == 83 {
        Some(FUNC_F4)
    } else {
        None
    }
}

/// `CSI 1 ; mods[:event] letter`.
pub open spec fn csi_1_letter_spec(b: Seq<u8>) -> Option<ParsedKittySequence> {
    if b.len() < 4 || b[0] != 27 || b[1] != 91 || b[2] != 49 || b[3] != 59 {
        None
    } else {
        let end = b.len() as int;
        match digits_at(b, 4, end) {
            None => None,
            Some((mv, i1)) => match event_at(b, i1, end) {
                None => None,
                Some((ev, i2)) => if i2 + 1 != end || mv == 0 {
                    None
                } else {
                    match letter_code(b[i2]) {
                        None => None,
                        Some(codepoint) => Some(
                            ParsedKittySequence {
                                codepoint,
                                shifted_key: None,
                                base_layout_key: None,
                                text_codepoint: None,
                                modifier: (mv - 1) as u32,
                                event_type: ev,
                            },
                        ),
                    }
                },
            },
        }
    }
}

pub open spec fn functional_code(k: u32) -> Option<i32> {
    if k == 2 {
        Some(FUNC_INSERT)
    } else if k == 3 {
        Some(FUNC_DELETE)
    } else if k == 5 {
        Some(FUNC_PAGE_UP)
    } else if k == 6 {
        Some(FUNC_PAGE_DOWN)
    } else if k == 1 || k == 7 {
        Some(FUNC_HOME)
    } else if k == 4 || k == 8 {
        Some(FUNC_END)
    } else if k == 11 {
        Some(FUNC_F1)
    } else if k == 12 {
        Some(FUNC_F2)
    } else if k == 13 {
        Some(FUNC_F3)
    } else if k == 14 {
        Some(FUNC_F4)
    } else if k == 15 {
        Some(FUNC_F5)
    } else if k == 17 {
        Some(FUNC_F6)
    } else if k == 18 {
        Some(FUNC_F7)
    } else if k == 19 {
        Some(FUNC_F8)
    } else if k == 20 {
        Some(FUNC_F9)
    } else if k == 21 {
        Some(FUNC_F10)
    } else if k == 23 {
        Some(FUNC_F11)
    } else if k == 24 {
        Some(FUNC_F12)
    } else {
        None
    }
}

/// `CSI number[;mods[:event]] ~`.
pub open spec fn functional_spec(b: Seq<u8>) -> Option<ParsedKittySequence> {
    let end = b.len() - 1;
    match digits_at(b, 2, end) {
        None => None,
        Some((key_num, i1)) => {
            let m = if i1 < end && b[i1] == 59 {
                digits_at(b, i1 + 1, end)
            } else {
                Some((1u32, i1))
            };
            match m {
                None => None,
                Some((mv, i2)) => match event_at(b, i2, end) {
                    None => None,
                    Some((ev, i3)) => if i3 != end || mv == 0 {
                        None
                    } else {
                        match functional_code(key_num) {
                            None => None,
                            Some(codepoint) => Some(
                                ParsedKittySequence {
                                    codepoint,
                                    shifted_key: None,
                                    base_layout_key: None,
                                    text_codepoint: None,
                                    modifier: (mv - 1) as u32,
                                    event_type: ev,
                                },
                            ),
                        }
                    },
                },
            }
        },
    }
}

/// The Kitty keyboard protocol reading of `b`, if it has one.
pub open spec fn kitty_spec(b: Seq<u8>) -> Option<ParsedKittySequence> {
    if b.len() < 4 || b[0] != 27 || b[1] != 91 {
        None
    } else {
        let last = b.last();
        if last == 117 {
            csi_u_spec(b)
        } else if last == 126 {
            functional_spec(b)
        } else if last == 65 || last == 66 || last == 67 || last == 68 || last == 69 || last == 70
            || last == 72 || last == 80 || last == 81 || last == 82 || last == 83 {
            csi_1_letter_spec(b)
        } else {
            None
        }
    }
}

/// xterm modifyOtherKeys `CSI 27 ; mods ; keycode ~`, as (modifier, keycode).
pub open spec fn modify_other_keys_spec(b: Seq<u8>) -> Option<(u32, i32)> {
    if b.len() < 7 || b[0] != 27 || b[1] != 91 || b[2] != 50 || b[3] != 55 || b[4] != 59 {
        None
    } else {
        let end = if b.last() == 126 {
            b.len() - 1
        } else {
            b.len() as int
        };
        if end <= 5 {
            None
        } else {
            match digits_at(b, 5, end) {
                None => None,
                Some((mv, i1)) => if i1 >= end || b[i1] != 59 {
                    None
                } else {
                    match digits_at(b, i1 + 1, end) {
                        None => None,
                        Some((kc, i2)) => if i2 != end || mv == 0 {
                            None
                        } else {
                            match to_i32(kc) {
                                None => None,
                                Some(keycode) => Some(((mv - 1) as u32, keycode)),
                            }
                        },
                    }
                },
            }
        }
    }
}

pub open spec fn is_ascii_letter_cp(cp: i32) -> bool {
    (65 <= cp <= 90) || (97 <= cp <= 122)
}

/// The key name of a parsed Kitty sequence.
pub open spec fn kitty_key_spec(p: ParsedKittySequence) -> Option<Seq<char>> {
    let m = p.modifier & !LOCK_MASK;
    let ecp = if is_ascii_letter_cp(p.codepoint) || symbol_key(p.codepoint) {
        p.codepoint
    } else {
        match p.base_layout_key {
            Some(b) => b,
            None => p.codepoint,
        }
    };
    if m == 0 {
        match p.text_codepoint {
            Some(t) if key_name(t) is Some => key_name(t),
            _ => key_name(ecp),
        }
    } else {
        match key_name(ecp) {
            Some(k) => Some(with_mods(m, k)),
            None => None,
        }
    }
}

/// The normalized key identifier of terminal input.
pub open spec fn parse_key_spec(b: Seq<u8>, kitty_protocol_active: bool) -> Option<Seq<char>> {
    if b.len() == 1 {
        single_byte_key(b[0])
    } else if b.len() == 0 || b[0] != 27 {
        None
    } else if legacy_name(b) is Some {
        legacy_name(b)
    } else if modify_other_keys_spec(b) is Some {
        let (mods, kc) = modify_other_keys_spec(b).unwrap();
        match key_name(kc) {
            None => None,
            Some(k) => if mods == 0 {
                Some(k)
            } else {
                Some(with_mods(mods & !LOCK_MASK, k))
            },
        }
    } else if kitty_spec(b) is Some {
        kitty_key_spec(kitty_spec(b).unwrap())
    } else if b.len() == 2 {
        esc_pair_key(b[1], kitty_protocol_active)
    } else if b == seq![27u8, 91u8, 90u8] {
        Some("shift+tab"@)
    } else if b == seq![27u8, 79u8, 77u8] {
        Some("enter"@)
    } else {
        None
    }
}

pub open spec fn opt_view(o: Option<String>) -> Option<Seq<char>> {
    match o {
        Some(s) => Some(s@),
        None => None,
    }
}

fn string_of(s: &str) -> (r: String)
    ensures
        r@ == s@,
{
    String::from_str(s)
}

fn prefixed_char(prefix: &str, c: u8) -> (r: String)
    ensures
        r@ == prefix@.push(byte_char(c)),
{
    let mut s = String::from_str(prefix);
    s.push(c as char);
    s
}

fn char_string(c: u8) -> (r: String)
    ensures
        r@ == seq![byte_char(c)],
{
    let mut s = String::new();
    s.push(c as char);
    assert(s@ =~= seq![byte_char(c)]);
    s
}

/// Parse terminal input and return a normalized key identifier such as
/// "escape" or "ctrl+c", or `None` if it is not recognized.
pub fn parse_key(bytes: &[u8], kitty_protocol_active: bool) -> (r: Option<String>)
    ensures
        opt_view(r) == parse_key_spec(bytes@, kitty_protocol_active),
{
    let n = bytes.len();
    if n == 1 {
        return parse_single_byte(bytes[0]);
    }
    if n == 0 || bytes[0] != 0x1b {
        return None;
    }
    if let Some(key_id) = legacy_lookup(bytes) {
        return Some(string_of(key_id));
    }
    if let Some((mods, keycode)) = parse_modify_other_keys(bytes) {
        let key_name = match format_key_name(keycode) {
            Some(k) => k,
            None => return None,
        };
        if mods == 0 {
            return Some(key_name);
        }
        return Some(format_with_mods(mods & !LOCK_MASK, key_name.as_str()));
    }
    if let Some(parsed) = parse_kitty_sequence(bytes) {
        return format_kitty_key(&parsed);
    }
    if n == 2 {
        return parse_esc_pair(bytes[1], kitty_protocol_active);
    }
    if n == 3 && bytes[1] == 91 && bytes[2] == 90 {
        assert(bytes@ =~= seq![27u8, 91u8, 90u8]);
        return Some(string_of("shift+tab"));
    }
    if n == 3 && bytes[1] == 79 && bytes[2] == 77 {
        assert(bytes@ =~= seq![27u8, 79u8, 77u8]);
        return Some(string_of("enter"));
    }
    None
}

fn parse_single_byte(code: u8) -> (r: Option<String>)
    ensures
        opt_view(r) == single_byte_key(code),
{
    if code == 0x1b {
        Some(string_of("escape"))
    } else if code == 9 {
        Some(string_of("tab"))
    } else if code == 13 || code == 10 {
        Some(string_of("enter"))
    } else if code == 0 {
        Some(string_of("ctrl+space"))
    } else if code == 32 {
        Some(string_of("space"))
    } else if code == 0x7f || code == 8 {
        Some(string_of("backspace"))
    } else if code == 28 {
        Some(string_of("ctrl+\\"))
    } else if code == 29 {
        Some(string_of("ctrl+]"))
    } else if code == 30 {
        Some(string_of("ctrl+^"))
    } else if code == 31 {
        Some(string_of("ctrl+_"))
    } else if 1 <= code && code <= 26 {
        Some(prefixed_char("ctrl+", code + 96))
    } else if 33 <= code && code <= 126 {
        Some(char_string(code))
    } else {
        None
    }
}

fn parse_esc_pair(code: u8, kitty_protocol_active: bool) -> (r: Option<String>)
    ensures
        opt_view(r) == esc_pair_key(code, kitty_protocol_active),
{
    if code == 0x7f || code == 8 {
        return Some(string_of("alt+backspace"));
    }
    if code == 13 {
        return Some(string_of("alt+enter"));
    }
    if code == 9 {
        return Some(string_of("alt+tab"));
    }
    if !kitty_protocol_active {
        if code == 32 {
            return Some(string_of("alt+space"));
        }
        if code == 66 {
            return Some(string_of("alt+left"));
        }
        if code == 70 {
            return Some(string_of("alt+right"));
        }
        if 1 <= code && code <= 26 {
            return Some(prefixed_char("ctrl+alt+", code + 96));
        }
        if 97 <= code && code <= 122 {
            return Some(prefixed_char("alt+", code));
        }
    }
    None
}

fn u32_to_i32(v: u32) -> (r: Option<i32>)
    ensures
        r == to_i32(v),
{
    if v <= 2147483647 {
        Some(v as i32)
    } else {
        None
    }
}

/// Parse a Kitty keyboard protocol sequence from raw bytes.
pub fn parse_kitty_sequence(bytes: &[u8]) -> (r: Option<ParsedKittySequence>)
    ensures
        r == kitty_spec(bytes@),
{
    let n = bytes.len();
    if n < 4 || bytes[0] != 0x1b || bytes[1] != 91 {
        return None;
    }
    let last = bytes[n - 1];
    if last == 117 {
        parse_csi_u(bytes)
    } else if last == 126 {
        parse_functional(bytes)
    } else if last == 65 || last == 66 || last == 67 || last == 68 || last == 69 || last == 70
        || last == 72 || last == 80 || last == 81 || last == 82 || last == 83 {
        parse_csi_1_letter(bytes)
    } else {
        None
    }
}

fn csi_u_alt_keys_exec(bytes: &[u8], i: usize, end: usize) -> (r: Option<(Option<i32>, Option<i32>, usize)>)
    requires
        end <= bytes@.len(),
        i <= end,
    ensures
        match r {
            Some((s, b, k)) => csi_u_alt_keys(bytes@, i as int, end as int) == Some(
                (s, b, k as int),
            ) && k <= end,
            None => csi_u_alt_keys(bytes@, i as int, end as int) is None,
        },
{
    if i < end && bytes[i] == 58 {
        let (sv, j) = parse_optional_digits(bytes, i + 1, end);
        proof {
            lemma_digits_at_range(bytes@, i + 1, end as int);
        }
        let shifted = match sv {
            Some(v) => u32_to_i32(v),
            None => None,
        };
        if j < end && bytes[j] == 58 {
            match parse_digits(bytes, j + 1, end) {
                None => None,
                Some((bv, k)) => {
                    proof {
                        lemma_digits_at_range(bytes@, j + 1, end as int);
                    }
                    match u32_to_i32(bv) {
                        Some(base) => Some((shifted, Some(base), k)),
                        None => None,
                    }
                },
            }
        } else {
            Some((shifted, None, j))
        }
    } else {
        Some((None, None, i))
    }
}

fn csi_u_mods_exec(bytes: &[u8], i: usize, end: usize) -> (r: Option<(u32, Option<u32>, usize)>)
    requires
        end <= bytes@.len(),
        i <= end,
    ensures
        match r {
            Some((m, e, k)) => csi_u_mods(bytes@, i as int, end as int) == Some((m, e, k as int))
                && k <= end,
            None => csi_u_mods(bytes@, i as int, end as int) is None,
        },
{
    if i < end && bytes[i] == 59 {
        let m = if i + 1 < end && 48 <= bytes[i + 1] && bytes[i + 1] <= 57 {
            proof {
                lemma_digits_at_range(bytes@, i + 1, end as int);
            }
            parse_digits(bytes, i + 1, end)
        } else {
            Some((1u32, i + 1))
        };
        match m {
            None => None,
            Some((mv, j)) => {
                if j < end && bytes[j] == 58 {
                    proof {
                        lemma_digits_at_range(bytes@, j + 1, end as int);
                    }
                    match parse_digits(bytes, j + 1, end) {
                        None => None,
                        Some((ev, k)) => Some((mv, Some(ev), k)),
                    }
                } else {
                    Some((mv, None, j))
                }
            },
        }
    } else {
        Some((1u32, None, i))
    }
}

fn csi_u_text_exec(bytes: &[u8], start: usize, end: usize) -> (r: Option<(Option<i32>, usize)>)
    requires
        end <= bytes@.len(),
        start <= end,
    ensures
        match r {
            Some((t, k)) => csi_u_text_from(bytes@, start as int, end as int, None, false) == Some(
                (t, k as int),
            ),
            None => csi_u_text_from(bytes@, start as int, end as int, None, false) is None,
        },
{
    let mut idx = start;
    let mut tc: Option<i32> = None;
    let mut seen = false;
    while idx < end
        invariant
            end <= bytes@.len(),
            start <= idx <= end,
            csi_u_text_from(bytes@, start as int, end as int, None, false) == csi_u_text_from(
                bytes@,
                idx as int,
                end as int,
                tc,
                seen,
            ),
        decreases end - idx,
    {
        if bytes[idx] == 58 {
            idx = idx + 1;
            continue;
        }
        proof {
            lemma_digits_at_range(bytes@, idx as int, end as int);
        }
        let (cp, next_idx) = match parse_digits(bytes, idx, end) {
            Some(p) => p,
            None => return None,
        };
        if !seen {
            if cp >= 32 && cp <= 2147483647 && cp <= 0x10FFFF && !(0xD800 <= cp && cp <= 0xDFFF) {
                tc = Some(cp as i32);
            }
        } else {
            tc = None;
        }
        seen = true;
        idx = next_idx;
        if idx < end && bytes[idx] == 58 {
            idx = idx + 1;
        }
    }
    Some((tc, idx))
}

fn parse_csi_u(bytes: &[u8]) -> (r: Option<ParsedKittySequence>)
    requires
        bytes@.len() >= 4,
    ensures
        r == csi_u_spec(bytes@),
{
    let end = bytes.len() - 1;
    proof {
        lemma_digits_at_range(bytes@, 2, end as int);
    }
    let (cpu, i1) = match parse_digits(bytes, 2, end) {
        Some(p) => p,
        None => return None,
    };
    let codepoint = match u32_to_i32(cpu) {
        Some(c) => c,
        None => return None,
    };
    let (shifted, base, i2) = match csi_u_alt_keys_exec(bytes, i1, end) {
        Some(p) => p,
        None => return None,
    };
    let (mv, ev, i3) = match csi_u_mods_exec(bytes, i2, end) {
        Some(p) => p,
        None => return None,
    };
    let (tc, i4) = if i3 < end && bytes[i3] == 59 {
        match csi_u_text_exec(bytes, i3 + 1, end) {
            Some(p) => p,
            None => return None,
        }
    } else {
        (None, i3)
    };
    if i4 != end || mv == 0 {
        return None;
    }
    Some(
        ParsedKittySequence {
            codepoint,
            shifted_key: shifted,
            base_layout_key: base,
            text_codepoint: tc,
            modifier: mv - 1,
            event_type: ev,
        },
    )
}

fn event_at_exec(bytes: &[u8], i: usize, end: usize) -> (r: Option<(Option<u32>, usize)>)
    requires
        end <= bytes@.len(),
        i <= end,
    ensures
        match r {
            Some((e, k)) => event_at(bytes@, i as int, end as int) == Some((e, k as int)) && k
                <= end,
            None => event_at(bytes@, i as int, end as int) is None,
        },
{
    if i < end && bytes[i] == 58 {
        proof {
            lemma_digits_at_range(bytes@, i + 1, end as int);
        }
        match parse_digits(bytes, i + 1, end) {
            None => None,
            Some((ev, k)) => Some((Some(ev), k)),
        }
    } else {
        Some((None, i))
    }
}

fn parse_csi_1_letter(bytes: &[u8]) -> (r: Option<ParsedKittySequence>)
    ensures
        r == csi_1_letter_spec(bytes@),
{
    let end = bytes.len();
    if end < 4 || bytes[0] != 27 || bytes[1] != 91 || bytes[2] != 49 || bytes[3] != 59 {
        return None;
    }
    proof {
        lemma_digits_at_range(bytes@, 4, end as int);
    }
    let (mv, i1) = match parse_digits(bytes, 4, end) {
        Some(p) => p,
        None => return None,
    };
    let (ev, i2) = match event_at_exec(bytes, i1, end) {
        Some(p) => p,
        None => return None,
    };
    if i2 >= end || i2 + 1 != end || mv == 0 {
        return None;
    }
    let c = bytes[i2];
    let codepoint = if c == 65 {
        ARROW_UP
    } else if c == 66 {
        ARROW_DOWN
    } else if c == 67 {
        ARROW_RIGHT
    } else if c == 68 {
        ARROW_LEFT
    } else if c == 72 {
        FUNC_HOME
    } else if c == 70 {
        FUNC_END
    } else if c == 69 {
        FUNC_CLEAR
    } else if c == 80 {
        FUNC_F1
    } else if c == 81 {
        FUNC_F2
    } else if c == 82 {
        FUNC_F3
    } else if c == 83 {
        FUNC_F4
    } else {
        return None;
    };
    Some(
        ParsedKittySequence {
            codepoint,
            shifted_key: None,
            base_layout_key: None,
            text_codepoint: None,
            modifier: mv - 1,
            event_type: ev,
        },
    )
}

fn functional_code_exec(k: u32) -> (r: Option<i32>)
    ensures
        r == functional_code(k),
{
    match k {
        2 => Some(FUNC_INSERT),
        3 => Some(FUNC_DELETE),
        5 => Some(FUNC_PAGE_UP),
        6 => Some(FUNC_PAGE_DOWN),
        1 | 7 => Some(FUNC_HOME),
        4 | 8 => Some(FUNC_END),
        11 => Some(FUNC_F1),
        12 => Some(FUNC_F2),
        13 => Some(FUNC_F3),
        14 => Some(FUNC_F4),
        15 => Some(FUNC_F5),
        17 => Some(FUNC_F6),
        18 => Some(FUNC_F7),
        19 => Some(FUNC_F8),
        20 => Some(FUNC_F9),
        21 => Some(FUNC_F10),
        23 => Some(FUNC_F11),
        24 => Some(FUNC_F12),
        _ => None,
    }
}

fn parse_functional(bytes: &[u8]) -> (r: Option<ParsedKittySequence>)
    requires
        bytes@.len() >= 4,
    ensures
        r == functional_spec(bytes@),
{
    let end = bytes.len() - 1;
    proof {
        lemma_digits_at_range(bytes@, 2, end as int);
    }
    let (key_num, i1) = match parse_digits(bytes, 2, end) {
        Some(p) => p,
        None => return None,
    };
    let (mv, i2) = if i1 < end && bytes[i1] == 59 {
        proof {
            lemma_digits_at_range(bytes@, i1 + 1, end as int);
        }
        match parse_digits(bytes, i1 + 1, end) {
            Some(p) => p,
            None => return None,
        }
    } else {
        (1u32, i1)
    };
    let (ev, i3) = match event_at_exec(bytes, i2, end) {
        Some(p) => p,
        None => return None,
    };
    if i3 != end || mv == 0 {
        return None;
    }
    let codepoint = match functional_code_exec(key_num) {
        Some(c) => c,
        None => return None,
    };
    Some(
        ParsedKittySequence {
            codepoint,
            shifted_key: None,
            base_layout_key: None,
            text_codepoint: None,
            modifier: mv - 1,
            event_type: ev,
        },
    )
}

/// Parse xterm "modifyOtherKeys" input `CSI 27 ; modifiers ; keycode ~`
/// into (modifier, keycode).
pub fn parse_modify_other_keys(bytes: &[u8]) -> (r: Option<(u32, i32)>)
    ensures
        r == modify_other_keys_spec(bytes@),
{
    let n = bytes.len();
    if n < 7 || bytes[0] != 27 || bytes[1] != 91 || bytes[2] != 50 || bytes[3] != 55 || bytes[4]
        != 59 {
        return None;
    }
    let end = if bytes[n - 1] == 126 {
        n - 1
    } else {
        n
    };
    if end <= 5 {
        return None;
    }
    proof {
        lemma_digits_at_range(bytes@, 5, end as int);
    }
    let (mv, i1) = match parse_digits(bytes, 5, end) {
        Some(p) => p,
        None => return None,
    };
    if i1 >= end || bytes[i1] != 59 {
        return None;
    }
    proof {
        lemma_digits_at_range(bytes@, i1 + 1, end as int);
    }
    let (kc, i2) = match parse_digits(bytes, i1 + 1, end) {
        Some(p) => p,
        None => return None,
    };
    if i2 != end || mv == 0 {
        return None;
    }
    match u32_to_i32(kc) {
        Some(keycode) => Some((mv - 1, keycode)),
        None => None,
    }
}

/// The key name of a parsed Kitty sequence.
pub fn format_kitty_key(parsed: &ParsedKittySequence) -> (r: Option<String>)
    ensures
        opt_view(r) == kitty_key_spec(*parsed),
{
    let effective_mod = parsed.modifier & !LOCK_MASK;
    let cp = parsed.codepoint;
    let effective_codepoint = if (65 <= cp && cp <= 90) || (97 <= cp && cp <= 122) || is_symbol_key(
        cp,
    ) {
        cp
    } else {
        match parsed.base_layout_key {
            Some(b) => b,
            None => cp,
        }
    };
    if effective_mod == 0 {
        if let Some(text_codepoint) = parsed.text_codepoint {
            if let Some(key_name) = format_key_name(text_codepoint) {
                return Some(key_name);
            }
        }
        return format_key_name(effective_codepoint);
    }
    match format_key_name(effective_codepoint) {
        Some(k) => Some(format_with_mods(effective_mod, k.as_str())),
        None => None,
    }
}

/// The name of a key code.
pub fn format_key_name(codepoint: i32) -> (r: Option<String>)
    ensures
        opt_view(r) == key_name(codepoint),
{
    let cp = codepoint;
    if cp == CP_ESCAPE {
        Some(string_of("escape"))
    } else if cp == CP_TAB {
        Some(string_of("tab"))
    } else if cp == CP_ENTER || cp == CP_KP_ENTER {
        Some(string_of("enter"))
    } else if cp == CP_SPACE {
        Some(string_of("space"))
    } else if cp == CP_BACKSPACE {
        Some(string_of("backspace"))
    } else if cp == CP_KP_0 || cp == FUNC_INSERT {
        Some(string_of("insert"))
    } else if cp == CP_KP_1 || cp == FUNC_END {
        Some(string_of("end"))
    } else if cp == CP_KP_2 || cp == ARROW_DOWN {
        Some(string_of("down"))
    } else if cp == CP_KP_3 || cp == FUNC_PAGE_DOWN {
        Some(string_of("pageDown"))
    } else if cp == CP_KP_4 || cp == ARROW_LEFT {
        Some(string_of("left"))
    } else if cp == CP_KP_5 || cp == FUNC_CLEAR {
        Some(string_of("clear"))
    } else if cp == CP_KP_6 || cp == ARROW_RIGHT {
        Some(string_of("right"))
    } else if cp == CP_KP_7 || cp == FUNC_HOME {
        Some(string_of("home"))
    } else if cp == CP_KP_8 || cp == ARROW_UP {
        Some(string_of("up"))
    } else if cp == CP_KP_9 || cp == FUNC_PAGE_UP {
        Some(string_of("pageUp"))
    } else if cp == CP_KP_DECIMAL || cp == FUNC_DELETE {
        Some(string_of("delete"))
    } else if cp == FUNC_F1 {
        Some(string_of("f1"))
    } else if cp == FUNC_F2 {
        Some(string_of("f2"))
    } else if cp == FUNC_F3 {
        Some(string_of("f3"))
    } else if cp == FUNC_F4 {
        Some(string_of("f4"))
    } else if cp == FUNC_F5 {
        Some(string_of("f5"))
    } else if cp == FUNC_F6 {
        Some(string_of("f6"))
    } else if cp == FUNC_F7 {
        Some(string_of("f7"))
    } else if cp == FUNC_F8 {
        Some(string_of("f8"))
    } else if cp == FUNC_F9 {
        Some(string_of("f9"))
    } else if cp == FUNC_F10 {
        Some(string_of("f10"))
    } else if cp == FUNC_F11 {
        Some(string_of("f11"))
    } else if cp == FUNC_F12 {
        Some(string_of("f12"))
    } else if 33 <= cp && cp <= 126 {
        Some(char_string(cp as u8))
    } else {
        None
    }
}

/// A key name with its modifier prefix.
pub fn format_with_mods(mods: u32, key_name: &str) -> (r: String)
    ensures
        r@ == with_mods(mods, key_name@),
{
    let mut result = String::new();
    if mods & MOD_SHIFT != 0 {
        result.append("shift+");
    }
    if mods & MOD_CTRL != 0 {
        result.append("ctrl+");
    }
    if mods & MOD_ALT != 0 {
        result.append("alt+");
    }
    result.append(key_name);
    assert(result@ =~= with_mods(mods, key_name@));
    result
}


/// A key name with modifier bits `m`: `shift+` when bit 1 is set, then
/// `ctrl+` when bit 4 is set, then `alt+` when bit 2 is set, then the key.
/// The other bits (super, hyper, meta, and the lock bits) add no prefix.
pub proof fn law_modifier_prefixes(m: u32, k: Seq<char>)
    ensures
        ({
            let s = with_mods(m, k);
            let ns: int = if m & 1 != 0 {
                6
            } else {
                0
            };
            let nc: int = if m & 4 != 0 {
                5
            } else {
                0
            };
            let na: int = if m & 2 != 0 {
                4
            } else {
                0
            };
            &&& s.len() == ns + nc + na + k.len()
            &&& s.skip(ns + nc + na) == k
            &&& m & 1 != 0 ==> s.take(6) == "shift+"@
            &&& m & 4 != 0 ==> s.subrange(ns, ns + 5) == "ctrl+"@
            &&& m & 2 != 0 ==> s.subrange(ns + nc, ns + nc + 4) == "alt+"@
        }),
        with_mods(m, k) == with_mods(m & 7, k),
{
    reveal_strlit("shift+");
    reveal_strlit("ctrl+");
    reveal_strlit("alt+");
    assert((m & 7) & 1 == m & 1 && (m & 7) & 2 == m & 2 && (m & 7) & 4 == m & 4) by (bit_vector);
    let p1: Seq<char> = if m & 1 != 0 {
        "shift+"@
    } else {
        Seq::empty()
    };
    let p2: Seq<char> = if m & 4 != 0 {
        "ctrl+"@
    } else {
        Seq::empty()
    };
    let p3: Seq<char> = if m & 2 != 0 {
        "alt+"@
    } else {
        Seq::empty()
    };
    let s = with_mods(m, k);
    assert(s == p1 + p2 + p3 + k);
    assert(s.skip((p1.len() + p2.len() + p3.len()) as int) =~= k);
    assert(s.take(p1.len() as int) =~= p1);
    let a: int = p1.len() as int;
    let b: int = a + p2.len();
    assert(s.subrange(a, b) =~= p2);
    assert(s.subrange(b, b + p3.len()) =~= p3);
}

/// A Kitty key event for a lowercase ASCII letter with the alt modifier
/// alone (caps lock and num lock aside) is named `alt+` and the letter.
pub proof fn law_kitty_alt_letter(p: ParsedKittySequence)
    requires
        97 <= p.codepoint <= 122,
        p.modifier == 2 || p.modifier == 66 || p.modifier == 130 || p.modifier == 194,
    ensures
        kitty_key_spec(p) == Some("alt+"@.push(p.codepoint as u8 as char)),
{
    reveal_strlit("alt+");
    let m = p.modifier;
    assert(m & !192u32 == 2) by (bit_vector)
        requires
            m == 2 || m == 66 || m == 130 || m == 194,
    ;
    assert(2u32 & 1 == 0 && 2u32 & 4 == 0 && 2u32 & 2 != 0) by (bit_vector);
    assert(key_name(p.codepoint) == Some(seq![byte_char(p.codepoint as u8)]));
    assert(with_mods(2, seq![byte_char(p.codepoint as u8)]) =~= "alt+"@.push(p.codepoint as u8 as char));
}

/// The Kitty reading of `ESC [ 9 7 ; d u`: the code point 97, the
/// modifier bits `d - 1`, no text.
#[verifier::rlimit(40)]
proof fn lemma_kitty_letter_a(d: u8)
    requires
        49 <= d <= 57,
    ensures
        kitty_spec(seq![27u8, 91, 57, 55, 59, d, 117]) matches Some(p) && p.codepoint == 97 && p.modifier == (
        d - 49) as u32 && p.text_codepoint is None,
{
    let b = seq![27u8, 91, 57, 55, 59, d, 117];
    reveal_with_fuel(digit_run_end, 4);
    reveal_with_fuel(decimal_value, 3);
    assert(digit_run_end(b, 2, 6) == 4);
    assert(decimal_value(b, 2, 4) == 97);
    assert(digits_at(b, 2, 6) == Some((97u32, 4int)));
    assert(csi_u_alt_keys(b, 4, 6) == Some((None::<i32>, None::<i32>, 4int)));
    assert(digit_run_end(b, 5, 6) == 6);
    assert(decimal_value(b, 5, 6) == d - 48);
    assert(csi_u_mods(b, 4, 6) == Some(((d - 48) as u32, None::<u32>, 6int)));
}

/// `ESC [ 9 7 ; d u`, the letter `a` under the Kitty keyboard protocol with
/// the modifier field `d` (1 plus the modifier bits, one digit), is `a`
/// with the prefixes of those bits; so `ESC [ 9 7 ; 3 u` is `alt+a`.
#[verifier::rlimit(40)]
pub proof fn law_kitty_letter_modifier_field(d: u8, kitty_protocol_active: bool)
    requires
        49 <= d <= 57,
    ensures
        parse_key_spec(seq![27u8, 91, 57, 55, 59, d, 117], kitty_protocol_active) == Some(
            with_mods((d - 49) as u32, "a"@),
        ),
        d == 51 ==> parse_key_spec(seq![27u8, 91, 57, 55, 59, d, 117], kitty_protocol_active) == Some(
            "alt+a"@,
        ),
{
    let b = seq![27u8, 91, 57, 55, 59, d, 117];
    let m = (d - 49) as u32;
    super::legacy::lemma_legacy_lengths(b);
    assert(modify_other_keys_spec(b) is None);
    lemma_kitty_letter_a(d);
    let p = kitty_spec(b).unwrap();
    assert(m & !192u32 == m) by (bit_vector)
        requires
            m <= 8,
    ;
    assert(key_name(97) == Some(seq![byte_char(97u8)]));
    reveal_strlit("a");
    assert("a"@ =~= seq![byte_char(97u8)]);
    if m == 0 {
        assert(0u32 & 1 == 0 && 0u32 & 2 == 0 && 0u32 & 4 == 0) by (bit_vector);
        assert(with_mods(0, "a"@) =~= "a"@);
    }
    assert(kitty_key_spec(p) == Some(with_mods(m, "a"@)));
    if d == 51 {
        reveal_strlit("alt+a");
        reveal_strlit("alt+");
        assert(2u32 & 1 == 0 && 2u32 & 4 == 0 && 2u32 & 2 != 0) by (bit_vector);
        assert(with_mods(2, "a"@) =~= "alt+a"@);
    }
}


/// The Kitty reading of `ESC [ 1 ; d f`: the key of the letter `f`, with
/// the modifier bits `d - 1`.
#[verifier::rlimit(40)]
proof fn lemma_csi_1_letter(f: u8, d: u8)
    requires
        letter_code(f) is Some,
        49 <= d <= 57,
    ensures
        kitty_spec(seq![27u8, 91u8, 49u8, 59u8, d, f]) == Some(
            ParsedKittySequence {
                codepoint: letter_code(f).unwrap(),
                shifted_key: None,
                base_layout_key: None,
                text_codepoint: None,
                modifier: (d - 49) as u32,
                event_type: None,
            },
        ),
{
    let b = seq![27u8, 91u8, 49u8, 59u8, d, f];
    reveal_with_fuel(digit_run_end, 3);
    reveal_with_fuel(decimal_value, 2);
    assert(digit_run_end(b, 4, 6) == 5);
    assert(decimal_value(b, 4, 5) == d - 48);
    assert(digits_at(b, 4, 6) == Some(((d - 48) as u32, 5int)));
    assert(event_at(b, 5, 6) == Some((None::<u32>, 5int)));
}

/// The cursor keys parse the same in both cursor modes (`ESC [ f` and
/// `ESC O f`), and their xterm modified form `ESC [ 1 ; d f`, with the
/// modifier field `d` (1 plus the modifier bits, one digit), is the same key
/// with the prefixes of those bits: `ESC [ H` is Home and `ESC [ 1 ; 5 H`
/// is ctrl+Home.
#[verifier::rlimit(40)]
pub proof fn law_cursor_key_forms(f: u8, d: u8, kitty_protocol_active: bool)
    requires
        super::legacy::cursor_key_final(f) is Some,
        49 <= d <= 57,
    ensures
        parse_key_spec(seq![27u8, 91u8, f], kitty_protocol_active) == super::legacy::cursor_key_final(f),
        parse_key_spec(seq![27u8, 79u8, f], kitty_protocol_active) == super::legacy::cursor_key_final(f),
        parse_key_spec(seq![27u8, 91u8, 49u8, 59u8, d, f], kitty_protocol_active) == Some(
            with_mods((d - 49) as u32, super::legacy::cursor_key_final(f).unwrap()),
        ),
{
    super::legacy::law_cursor_keys_both_modes(f);
    let b = seq![27u8, 91u8, 49u8, 59u8, d, f];
    let m = (d - 49) as u32;
    super::legacy::lemma_legacy_lengths(b);
    assert(modify_other_keys_spec(b) is None);
    let code = letter_code(f).unwrap();
    lemma_csi_1_letter(f, d);
    assert(m & !192u32 == m) by (bit_vector)
        requires
            m <= 8,
    ;
    assert(key_name(code) == super::legacy::cursor_key_final(f));
    if m == 0 {
        assert(0u32 & 1 == 0 && 0u32 & 2 == 0 && 0u32 & 4 == 0) by (bit_vector);
        assert(with_mods(0, key_name(code).unwrap()) =~= key_name(code).unwrap());
    }
}

} // verus!
