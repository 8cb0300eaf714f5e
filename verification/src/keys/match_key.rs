//! Key matching: compare raw terminal input against a key identifier string.

use vstd::prelude::*;
use vstd::string::*;

use super::legacy::{legacy_lookup, legacy_name, legacy_modifier_match, matches_legacy_key, matches_legacy_modifier_sequence};
use super::parse::{is_ascii_letter_cp, kitty_spec, modify_other_keys_spec, parse_kitty_sequence, parse_modify_other_keys};
use super::types::{
    ParsedKittySequence, keypad_nav, map_keypad_nav, symbol_key, is_symbol_key, ARROW_DOWN,
    ARROW_LEFT, ARROW_RIGHT, ARROW_UP, CP_BACKSPACE, CP_ENTER, CP_ESCAPE, CP_KP_ENTER, CP_SPACE,
    CP_TAB, FUNC_CLEAR, FUNC_DELETE, FUNC_END, FUNC_F1, FUNC_F10, FUNC_F11, FUNC_F12, FUNC_HOME,
    FUNC_INSERT, FUNC_PAGE_DOWN, FUNC_PAGE_UP, LOCK_MASK, MOD_ALT, MOD_CTRL, MOD_SHIFT,
};
use crate::strs::{chars_of, str_eq, string_from_range, trim, trim_bounds};

verus! {

pub open spec fn ascii_lower(c: char) -> char {
    if 'A' <= c && c <= 'Z' {
        ((c as u32) + 32) as char
    } else {
        c
    }
}

/// Equality up to ASCII case.
pub open spec fn ci_eq(a: Seq<char>, b: Seq<char>) -> bool {
    a.len() == b.len() && forall|i: int| 0 <= i < a.len() ==> ascii_lower(#[trigger] a[i]) == ascii_lower(b[i])
}

/// Index of the first `c` in `s` at or after `i`.
pub open spec fn index_of_from(s: Seq<char>, c: char, i: int) -> Option<int>
    decreases s.len() - i,
{
    if i < 0 || i >= s.len() {
        None
    } else if s[i] == c {
        Some(i)
    } else {
        index_of_from(s, c, i + 1)
    }
}

pub proof fn lemma_index_of_from_range(s: Seq<char>, c: char, i: int)
    ensures
        index_of_from(s, c, i) matches Some(k) ==> i <= k < s.len() && s[k] == c,
    decreases s.len() - i,
{
    if 0 <= i < s.len() && s[i] != c {
        lemma_index_of_from_range(s, c, i + 1);
    }
}

/// The pieces of `s` between `+` separators.
pub open spec fn split_plus(s: Seq<char>) -> Seq<Seq<char>>
    decreases s.len(),
{
    match index_of_from(s, '+', 0) {
        None => seq![s],
        Some(k) => {
            proof {
                lemma_index_of_from_range(s, '+', 0);
            }
            seq![s.take(k)] + split_plus(s.skip(k + 1))
        },
    }
}

/// Read the pieces of a key identifier: modifier names set their bit, any
/// other non-empty piece becomes the key.
pub open spec fn fold_key_parts(parts: Seq<Seq<char>>, modifier: u32, key: Option<Seq<char>>) -> (
    u32,
    Option<Seq<char>>,
)
    decreases parts.len(),
{
    if parts.len() == 0 {
        (modifier, key)
    } else {
        let p = trim(parts[0]);
        let rest = parts.drop_first();
        if p.len() == 0 {
            fold_key_parts(rest, modifier, key)
        } else if ci_eq(p, "ctrl"@) {
            fold_key_parts(rest, modifier | MOD_CTRL, key)
        } else if ci_eq(p, "shift"@) {
            fold_key_parts(rest, modifier | MOD_SHIFT, key)
        } else if ci_eq(p, "alt"@) {
            fold_key_parts(rest, modifier | MOD_ALT, key)
        } else {
            fold_key_parts(rest, modifier, Some(p))
        }
    }
}

/// A key identifier such as `ctrl+shift+a`, read as (key, modifier bits).
pub open spec fn parse_key_id_spec(id: Seq<char>) -> Option<(Seq<char>, u32)> {
    let s = trim(id);
    if s.len() == 0 {
        None
    } else {
        let forced = s == seq!['+'] || (s.len() >= 2 && s[s.len() - 1] == '+' && s[s.len() - 2]
            == '+');
        let prefix = if s == seq!['+'] {
            Seq::empty()
        } else if forced {
            s.take(s.len() - 2)
        } else {
            s
        };
        let (m, k) = fold_key_parts(
            split_plus(prefix),
            0,
            if forced {
                Some(seq!['+'])
            } else {
                None
            },
        );
        match k {
            None => None,
            Some(k) => Some(
                (
                    if ci_eq(k, "plus"@) {
                        seq!['+']
                    } else if ci_eq(k, "esc"@) {
                        "esc"@
                    } else {
                        k
                    },
                    m,
                ),
            ),
        }
    }
}

/// The Kitty reading of the input names `codepoint` with modifiers `m`
/// (lock bits aside); keypad navigation keys count as their functional
/// keys, and the base-layout key counts for non-letter, non-symbol keys.
pub open spec fn kitty_match(kp: Option<ParsedKittySequence>, codepoint: i32, m: u32) -> bool {
    match kp {
        None => false,
        Some(p) => {
            if p.modifier & !LOCK_MASK != m & !LOCK_MASK {
                false
            } else {
                let pc = if p.text_codepoint is None && keypad_nav(p.codepoint) is Some {
                    keypad_nav(p.codepoint).unwrap()
                } else {
                    p.codepoint
                };
                let pb = if p.text_codepoint is None {
                    match p.base_layout_key {
                        Some(b) => match keypad_nav(b) {
                            Some(mb) => Some(mb),
                            None => Some(b),
                        },
                        None => None,
                    }
                } else {
                    p.base_layout_key
                };
                if pc == codepoint {
                    true
                } else {
                    match pb {
                        Some(bb) => bb == codepoint && !is_ascii_letter_cp(pc) && !symbol_key(pc),
                        None => false,
                    }
                }
            }
        },
    }
}

/// The modifyOtherKeys reading of the input names `keycode` with modifiers `m`.
pub open spec fn mok_match(mok: Option<(u32, i32)>, keycode: i32, m: u32) -> bool {
    match mok {
        Some((mm, kk)) => kk == keycode && mm == m,
        None => false,
    }
}

/// Function-key code of `f1`..`f12` (any case).
pub open spec fn f_code(key: Seq<char>) -> Option<i32> {
    if key.len() == 2 && (key[0] == 'f' || key[0] == 'F') && '1' <= key[1] && key[1] <= '9' {
        Some((FUNC_F1 + (key[1] as u32 - 49)) as i32)
    } else if key.len() == 3 && (key[0] == 'f' || key[0] == 'F') && key[1] == '1' && key[2]
        == '0' {
        Some(FUNC_F10)
    } else if key.len() == 3 && (key[0] == 'f' || key[0] == 'F') && key[1] == '1' && key[2]
        == '1' {
        Some(FUNC_F11)
    } else if key.len() == 3 && (key[0] == 'f' || key[0] == 'F') && key[1] == '1' && key[2]
        == '2' {
        Some(FUNC_F12)
    } else {
        None
    }
}

/// The byte that ctrl plus a symbol produces in legacy terminals.
pub open spec fn ctrl_symbol_byte(symbol: u8) -> Option<u8> {
    if symbol == 64 || symbol == 91 || symbol == 92 || symbol == 93 || symbol == 94 || symbol
        == 95 {
        Some((symbol - 64) as u8)
    } else if symbol == 45 {
        Some(31u8)
    } else {
        None
    }
}

/// Matching of a one-character key.
pub open spec fn single_char_matches(
    b: Seq<u8>,
    c: char,
    modifier: u32,
    kitty_protocol_active: bool,
    kp: Option<ParsedKittySequence>,
    mok: Option<(u32, i32)>,
) -> bool {
    let cu = c as u32;
    if !(33 <= cu <= 126) {
        false
    } else {
        let ch: u8 = if 65 <= cu <= 90 {
            (cu + 32) as u8
        } else {
            cu as u8
        };
        let cp = ch as i32;
        let is_letter = 97 <= ch <= 122;
        if modifier == MOD_CTRL | MOD_ALT && !kitty_protocol_active && is_letter {
            b.len() == 2 && b[0] == 27 && b[1] == ch - 96
        } else if modifier == MOD_ALT && !kitty_protocol_active && is_letter {
            b.len() == 2 && b[0] == 27 && b[1] == ch
        } else if modifier == MOD_CTRL {
            if is_letter {
                (b.len() == 1 && b[0] == ch - 96) || mok_match(mok, cp, MOD_CTRL) || kitty_match(
                    kp,
                    cp,
                    MOD_CTRL,
                )
            } else {
                (ctrl_symbol_byte(ch) matches Some(x) && b == seq![x]) || mok_match(mok, cp, MOD_CTRL)
                    || kitty_match(kp, cp, MOD_CTRL)
            }
        } else if modifier == MOD_CTRL | MOD_SHIFT {
            kitty_match(kp, cp, 5) || mok_match(mok, cp, 5)
        } else if modifier == MOD_SHIFT {
            (is_letter && b.len() == 1 && b[0] == ch - 32) || kitty_match(kp, cp, MOD_SHIFT)
                || mok_match(mok, cp, MOD_SHIFT)
        } else if modifier != 0 {
            kitty_match(kp, cp, modifier) || mok_match(mok, cp, modifier)
        } else {
            (b.len() == 1 && b[0] == ch) || kitty_match(kp, cp, 0)
        }
    }
}

/// Matching of keys with legacy sequences and shift/ctrl legacy variants.
pub open spec fn nav_matches(
    b: Seq<u8>,
    legacy: Seq<char>,
    code: i32,
    modifier: u32,
    kp: Option<ParsedKittySequence>,
) -> bool {
    if modifier == 0 {
        legacy_name(b) == Some(legacy) || kitty_match(kp, code, 0)
    } else {
        legacy_modifier_match(b, legacy, modifier) || kitty_match(kp, code, modifier)
    }
}

/// Matching of the left/right arrows.
pub open spec fn horizontal_matches(
    b: Seq<u8>,
    legacy: Seq<char>,
    code: i32,
    letter: u8,
    csi_letter: u8,
    modifier: u32,
    kitty_protocol_active: bool,
    kp: Option<ParsedKittySequence>,
) -> bool {
    if modifier == MOD_ALT {
        b == seq![27u8, 91, 49, 59, 51, csi_letter] || (!kitty_protocol_active && b == seq![
            27u8,
            (letter - 32) as u8,
        ]) || b == seq![27u8, letter] || kitty_match(kp, code, MOD_ALT)
    } else if modifier == MOD_CTRL {
        b == seq![27u8, 91, 49, 59, 53, csi_letter] || legacy_modifier_match(b, legacy, MOD_CTRL)
            || kitty_match(kp, code, MOD_CTRL)
    } else {
        nav_matches(b, legacy, code, modifier, kp)
    }
}

/// Whether input `b` is the key `key` with modifier bits `modifier`.
pub open spec fn key_matches(b: Seq<u8>, key: Seq<char>, modifier: u32, kitty_protocol_active: bool) -> bool {
    let kp = kitty_spec(b);
    let mok = modify_other_keys_spec(b);
    if ci_eq(key, "escape"@) || ci_eq(key, "esc"@) {
        modifier == 0 && (b == seq![27u8] || kitty_match(kp, CP_ESCAPE, 0))
    } else if ci_eq(key, "space"@) {
        if modifier == MOD_CTRL && b == seq![0u8] {
            true
        } else if modifier == MOD_ALT && !kitty_protocol_active && b == seq![27u8, 32] {
            true
        } else if modifier == 0 {
            b == seq![32u8] || kitty_match(kp, CP_SPACE, 0)
        } else {
            kitty_match(kp, CP_SPACE, modifier) || mok_match(mok, CP_SPACE, modifier)
        }
    } else if ci_eq(key, "tab"@) {
        if modifier == MOD_SHIFT {
            b == seq![27u8, 91, 90] || kitty_match(kp, CP_TAB, MOD_SHIFT) || mok_match(
                mok,
                CP_TAB,
                MOD_SHIFT,
            )
        } else if modifier == MOD_ALT && b == seq![27u8, 9] {
            true
        } else if modifier == 0 {
            b == seq![9u8] || kitty_match(kp, CP_TAB, 0)
        } else {
            kitty_match(kp, CP_TAB, modifier) || mok_match(mok, CP_TAB, modifier)
        }
    } else if ci_eq(key, "enter"@) || ci_eq(key, "return"@) {
        if modifier == MOD_ALT && b == seq![27u8, 13] {
            true
        } else if modifier == 0 {
            b == seq![13u8] || b == seq![10u8] || b == seq![27u8, 79, 77] || kitty_match(
                kp,
                CP_ENTER,
                0,
            ) || kitty_match(kp, CP_KP_ENTER, 0)
        } else {
            kitty_match(kp, CP_ENTER, modifier) || kitty_match(kp, CP_KP_ENTER, modifier)
                || mok_match(mok, CP_ENTER, modifier) || mok_match(mok, CP_KP_ENTER, modifier)
        }
    } else if ci_eq(key, "backspace"@) {
        if modifier == MOD_ALT {
            b == seq![27u8, 127] || b == seq![27u8, 8] || kitty_match(kp, CP_BACKSPACE, MOD_ALT)
                || mok_match(mok, CP_BACKSPACE, MOD_ALT)
        } else if modifier == 0 {
            b == seq![127u8] || b == seq![8u8] || kitty_match(kp, CP_BACKSPACE, 0)
        } else {
            kitty_match(kp, CP_BACKSPACE, modifier) || mok_match(mok, CP_BACKSPACE, modifier)
        }
    } else if ci_eq(key, "insert"@) {
        nav_matches(b, "insert"@, FUNC_INSERT, modifier, kp)
    } else if ci_eq(key, "delete"@) {
        nav_matches(b, "delete"@, FUNC_DELETE, modifier, kp)
    } else if ci_eq(key, "clear"@) {
        nav_matches(b, "clear"@, FUNC_CLEAR, modifier, kp)
    } else if ci_eq(key, "home"@) {
        nav_matches(b, "home"@, FUNC_HOME, modifier, kp)
    } else if ci_eq(key, "end"@) {
        nav_matches(b, "end"@, FUNC_END, modifier, kp)
    } else if ci_eq(key, "pageup"@) {
        nav_matches(b, "pageUp"@, FUNC_PAGE_UP, modifier, kp)
    } else if ci_eq(key, "pagedown"@) {
        nav_matches(b, "pageDown"@, FUNC_PAGE_DOWN, modifier, kp)
    } else if ci_eq(key, "up"@) {
        if modifier == MOD_ALT {
            b == seq![27u8, 112] || kitty_match(kp, ARROW_UP, MOD_ALT)
        } else {
            nav_matches(b, "up"@, ARROW_UP, modifier, kp)
        }
    } else if ci_eq(key, "down"@) {
        if modifier == MOD_ALT {
            b == seq![27u8, 110] || kitty_match(kp, ARROW_DOWN, MOD_ALT)
        } else {
            nav_matches(b, "down"@, ARROW_DOWN, modifier, kp)
        }
    } else if ci_eq(key, "left"@) {
        horizontal_matches(b, "left"@, ARROW_LEFT, 98, 68, modifier, kitty_protocol_active, kp)
    } else if ci_eq(key, "right"@) {
        horizontal_matches(b, "right"@, ARROW_RIGHT, 102, 67, modifier, kitty_protocol_active, kp)
    } else if f_code(key) is Some {
        if modifier == 0 {
            legacy_name(b) == Some(key)
        } else {
            kitty_match(kp, f_code(key).unwrap(), modifier)
        }
    } else if key.len() == 1 && (key[0] as u32) < 128 {
        single_char_matches(b, key[0], modifier, kitty_protocol_active, kp, mok)
    } else {
        false
    }
}

/// Whether input `b` is the key that `key_id` names.
pub open spec fn matches_key_spec(b: Seq<u8>, key_id: Seq<char>, kitty_protocol_active: bool) -> bool {
    match parse_key_id_spec(key_id) {
        None => false,
        Some((key, modifier)) => key_matches(b, key, modifier, kitty_protocol_active),
    }
}

pub fn lower_char(c: char) -> (r: char)
    ensures
        r == ascii_lower(c),
{
    if 'A' <= c && c <= 'Z' {
        ((c as u32) + 32) as u8 as char
    } else {
        c
    }
}

/// Case-insensitive (ASCII) comparison of `v[a..b]` with `lit`.
fn ci_eq_range(v: &Vec<char>, a: usize, b: usize, lit: &str) -> (r: bool)
    requires
        a <= b <= v@.len(),
    ensures
        r == ci_eq(v@.subrange(a as int, b as int), lit@),
{
    let w = chars_of(lit);
    if b - a != w.len() {
        return false;
    }
    let mut i: usize = 0;
    while i < w.len()
        invariant
            a <= b <= v@.len(),
            w@ == lit@,
            b - a == w@.len(),
            i <= w@.len(),
            forall|j: int| 0 <= j < i ==> ascii_lower(#[trigger] v@[a + j]) == ascii_lower(w@[j]),
        decreases w@.len() - i,
    {
        if lower_char(v[a + i]) != lower_char(w[i]) {
            assert(ascii_lower(v@.subrange(a as int, b as int)[i as int]) != ascii_lower(lit@[i as int]));
            return false;
        }
        i = i + 1;
    }
    assert forall|j: int| 0 <= j < (b - a) implies ascii_lower(
        #[trigger] v@.subrange(a as int, b as int)[j],
    ) == ascii_lower(lit@[j]) by {
        assert(v@.subrange(a as int, b as int)[j] == v@[a + j]);
    }
    true
}

pub fn ci_eq_str(s: &str, lit: &str) -> (r: bool)
    ensures
        r == ci_eq(s@, lit@),
{
    let v = chars_of(s);
    let r = ci_eq_range(&v, 0, v.len(), lit);
    assert(v@.subrange(0, v@.len() as int) =~= s@);
    r
}

/// Read a key identifier into (key, modifier bits).
fn parse_key_id(key_id: &str) -> (r: Option<(String, u32)>)
    ensures
        match r {
            Some((k, m)) => parse_key_id_spec(key_id@) == Some((k@, m)),
            None => parse_key_id_spec(key_id@) is None,
        },
{
    let v = chars_of(key_id);
    let (lo, hi) = trim_bounds(&v, 0, v.len());
    assert(v@.subrange(0, v@.len() as int) =~= key_id@);
    let ghost s = v@.subrange(lo as int, hi as int);
    if lo == hi {
        return None;
    }
    let single_plus = hi - lo == 1 && v[lo] == '+';
    let forced = single_plus || (hi - lo >= 2 && v[hi - 1] == '+' && v[hi - 2] == '+');
    proof {
        if hi - lo == 1 && v@[lo as int] == '+' {
            assert(s =~= seq!['+']);
        }
        if s == seq!['+'] {
            assert(s[0] == v@[lo as int]);
        }
    }
    let pend = if single_plus {
        lo
    } else if forced {
        hi - 2
    } else {
        hi
    };
    let ghost prefix = v@.subrange(lo as int, pend as int);
    assert(prefix =~= (if s == seq!['+'] {
        Seq::empty()
    } else if forced {
        s.take(s.len() - 2)
    } else {
        s
    }));
    let mut modifier: u32 = 0;
    let mut key: Option<(usize, usize)> = None;
    let mut forced_key = forced;
    let ghost init_key: Option<Seq<char>> = if forced {
        Some(seq!['+'])
    } else {
        None
    };
    let mut pos = lo;
    loop
        invariant_except_break
            fold_key_parts(split_plus(prefix), 0, init_key) == fold_key_parts(
                split_plus(v@.subrange(pos as int, pend as int)),
                modifier,
                match key {
                    Some((a, b)) => Some(v@.subrange(a as int, b as int)),
                    None => if forced_key {
                        Some(seq!['+'])
                    } else {
                        None
                    },
                },
            ),
        invariant
            lo <= pos <= pend <= hi <= v@.len(),
            prefix == v@.subrange(lo as int, pend as int),
            match key {
                Some((a, b)) => a <= b <= v@.len(),
                None => true,
            },
        ensures
            fold_key_parts(split_plus(prefix), 0, init_key) == (
                modifier,
                match key {
                    Some((a, b)) => Some(v@.subrange(a as int, b as int)),
                    None => if forced_key {
                        Some(seq!['+'])
                    } else {
                        None
                    },
                },
            ),
            match key {
                Some((a, b)) => a <= b <= v@.len(),
                None => true,
            },
        decreases pend - pos,
    {
        let ghost rest = v@.subrange(pos as int, pend as int);
        let mut j = pos;
        while j < pend && v[j] != '+'
            invariant
                pos <= j <= pend <= v@.len(),
                rest == v@.subrange(pos as int, pend as int),
                index_of_from(rest, '+', 0) == index_of_from(rest, '+', (j - pos) as int),
            decreases pend - j,
        {
            j = j + 1;
        }
        let (plo, phi) = trim_bounds(&v, pos, j);
        let ghost part = v@.subrange(pos as int, j as int);
        proof {
            lemma_index_of_from_range(rest, '+', 0);
            if j < pend {
                assert(index_of_from(rest, '+', 0) == Some((j - pos) as int));
                assert(rest.take((j - pos) as int) =~= part);
                assert(rest.skip((j - pos) + 1) =~= v@.subrange(j + 1, pend as int));
            } else {
                assert(index_of_from(rest, '+', 0) is None);
                assert(part =~= rest);
            }
            assert(split_plus(rest)[0] == part);
            assert(split_plus(rest).drop_first() == if j < pend {
                split_plus(v@.subrange(j + 1, pend as int))
            } else {
                Seq::<Seq<char>>::empty()
            });
        }
        if plo == phi {
        } else if ci_eq_range(&v, plo, phi, "ctrl") {
            modifier = modifier | MOD_CTRL;
        } else if ci_eq_range(&v, plo, phi, "shift") {
            modifier = modifier | MOD_SHIFT;
        } else if ci_eq_range(&v, plo, phi, "alt") {
            modifier = modifier | MOD_ALT;
        } else {
            key = Some((plo, phi));
            forced_key = false;
        }
        if j >= pend {
            proof {
                let kv = match key {
                    Some((a, b)) => Some(v@.subrange(a as int, b as int)),
                    None => if forced_key {
                        Some(seq!['+'])
                    } else {
                        None
                    },
                };
                assert(fold_key_parts(Seq::<Seq<char>>::empty(), modifier, kv) == (modifier, kv));
            }
            break;
        }
        pos = j + 1;
    }
    match key {
        None => {
            if forced_key {
                let mut k = String::new();
                k.push('+');
                assert(k@ =~= seq!['+']);
                proof {
                    reveal_strlit("plus");
                    reveal_strlit("esc");
                }
                Some((k, modifier))
            } else {
                None
            }
        },
        Some((a, b)) => {
            if ci_eq_range(&v, a, b, "plus") {
                let mut k = String::new();
                k.push('+');
                assert(k@ =~= seq!['+']);
                Some((k, modifier))
            } else if ci_eq_range(&v, a, b, "esc") {
                Some((String::from_str("esc"), modifier))
            } else {
                Some((string_from_range(v.as_slice(), a, b), modifier))
            }
        },
    }
}

fn kitty_matches(kp: &Option<ParsedKittySequence>, codepoint: i32, m: u32) -> (r: bool)
    ensures
        r == kitty_match(*kp, codepoint, m),
{
    match kp {
        None => false,
        Some(p) => {
            if p.modifier & !LOCK_MASK != m & !LOCK_MASK {
                return false;
            }
            let mut pc = p.codepoint;
            let mut pb = p.base_layout_key;
            if p.text_codepoint.is_none() {
                if let Some(mapped) = map_keypad_nav(pc) {
                    pc = mapped;
                }
                if let Some(b) = pb {
                    if let Some(mapped) = map_keypad_nav(b) {
                        pb = Some(mapped);
                    }
                }
            }
            if pc == codepoint {
                return true;
            }
            match pb {
                Some(bb) => bb == codepoint && !((65 <= pc && pc <= 90) || (97 <= pc && pc <= 122))
                    && !is_symbol_key(pc),
                None => false,
            }
        },
    }
}

fn mok_matches(mok: Option<(u32, i32)>, keycode: i32, m: u32) -> (r: bool)
    ensures
        r == mok_match(mok, keycode, m),
{
    match mok {
        Some((mm, kk)) => kk == keycode && mm == m,
        None => false,
    }
}

fn is1(b: &[u8], x: u8) -> (r: bool)
    ensures
        r == (b@ == seq![x]),
{
    let r = b.len() == 1 && b[0] == x;
    if r {
        assert(b@ =~= seq![x]);
    }
    r
}

fn is2(b: &[u8], x: u8, y: u8) -> (r: bool)
    ensures
        r == (b@ == seq![x, y]),
{
    let r = b.len() == 2 && b[0] == x && b[1] == y;
    if r {
        assert(b@ =~= seq![x, y]);
    }
    r
}

fn is3(b: &[u8], x: u8, y: u8, z: u8) -> (r: bool)
    ensures
        r == (b@ == seq![x, y, z]),
{
    let r = b.len() == 3 && b[0] == x && b[1] == y && b[2] == z;
    if r {
        assert(b@ =~= seq![x, y, z]);
    }
    r
}

fn is6(b: &[u8], x: u8, y: u8, z: u8, w: u8, u: u8, t: u8) -> (r: bool)
    ensures
        r == (b@ == seq![x, y, z, w, u, t]),
{
    let r = b.len() == 6 && b[0] == x && b[1] == y && b[2] == z && b[3] == w && b[4] == u && b[5]
        == t;
    if r {
        assert(b@ =~= seq![x, y, z, w, u, t]);
    }
    r
}

fn nav_matches_exec(
    bytes: &[u8],
    legacy: &str,
    code: i32,
    modifier: u32,
    kp: &Option<ParsedKittySequence>,
) -> (r: bool)
    ensures
        r == nav_matches(bytes@, legacy@, code, modifier, *kp),
{
    if modifier == 0 {
        matches_legacy_key(bytes, legacy) || kitty_matches(kp, code, 0)
    } else {
        matches_legacy_modifier_sequence(bytes, legacy, modifier) || kitty_matches(
            kp,
            code,
            modifier,
        )
    }
}

fn horizontal_matches_exec(
    bytes: &[u8],
    legacy: &str,
    code: i32,
    letter: u8,
    csi_letter: u8,
    modifier: u32,
    kitty_protocol_active: bool,
    kp: &Option<ParsedKittySequence>,
) -> (r: bool)
    requires
        letter >= 32,
    ensures
        r == horizontal_matches(
            bytes@,
            legacy@,
            code,
            letter,
            csi_letter,
            modifier,
            kitty_protocol_active,
            *kp,
        ),
{
    if modifier == MOD_ALT {
        is6(bytes, 27, 91, 49, 59, 51, csi_letter) || (!kitty_protocol_active && is2(
            bytes,
            27,
            letter - 32,
        )) || is2(bytes, 27, letter) || kitty_matches(kp, code, MOD_ALT)
    } else if modifier == MOD_CTRL {
        is6(bytes, 27, 91, 49, 59, 53, csi_letter) || matches_legacy_modifier_sequence(
            bytes,
            legacy,
            MOD_CTRL,
        ) || kitty_matches(kp, code, MOD_CTRL)
    } else {
        nav_matches_exec(bytes, legacy, code, modifier, kp)
    }
}

fn f_code_exec(key: &str) -> (r: Option<i32>)
    ensures
        r == f_code(key@),
{
    let v = chars_of(key);
    let n = v.len();
    if n == 2 && (v[0] == 'f' || v[0] == 'F') && '1' <= v[1] && v[1] <= '9' {
        Some(FUNC_F1 + ((v[1] as u32) - 49) as i32)
    } else if n == 3 && (v[0] == 'f' || v[0] == 'F') && v[1] == '1' && v[2] == '0' {
        Some(FUNC_F10)
    } else if n == 3 && (v[0] == 'f' || v[0] == 'F') && v[1] == '1' && v[2] == '1' {
        Some(FUNC_F11)
    } else if n == 3 && (v[0] == 'f' || v[0] == 'F') && v[1] == '1' && v[2] == '2' {
        Some(FUNC_F12)
    } else {
        None
    }
}

fn single_char_matches_exec(
    bytes: &[u8],
    c: char,
    modifier: u32,
    kitty_protocol_active: bool,
    kp: &Option<ParsedKittySequence>,
    mok: Option<(u32, i32)>,
) -> (r: bool)
    ensures
        r == single_char_matches(bytes@, c, modifier, kitty_protocol_active, *kp, mok),
{
    let cu = c as u32;
    if !(33 <= cu && cu <= 126) {
        return false;
    }
    let ch: u8 = if 65 <= cu && cu <= 90 {
        (cu + 32) as u8
    } else {
        cu as u8
    };
    let cp = ch as i32;
    let is_letter = 97 <= ch && ch <= 122;
    if modifier == MOD_CTRL | MOD_ALT && !kitty_protocol_active && is_letter {
        return bytes.len() == 2 && bytes[0] == 27 && bytes[1] == ch - 96;
    }
    if modifier == MOD_ALT && !kitty_protocol_active && is_letter {
        return bytes.len() == 2 && bytes[0] == 27 && bytes[1] == ch;
    }
    if modifier == MOD_CTRL {
        if is_letter {
            if bytes.len() == 1 && bytes[0] == ch - 96 {
                return true;
            }
            return mok_matches(mok, cp, MOD_CTRL) || kitty_matches(kp, cp, MOD_CTRL);
        }
        let sym = if ch == 64 || ch == 91 || ch == 92 || ch == 93 || ch == 94 || ch == 95 {
            Some(ch - 64)
        } else if ch == 45 {
            Some(31u8)
        } else {
            None
        };
        if let Some(x) = sym {
            if is1(bytes, x) {
                return true;
            }
        }
        return mok_matches(mok, cp, MOD_CTRL) || kitty_matches(kp, cp, MOD_CTRL);
    }
    if modifier == MOD_CTRL | MOD_SHIFT {
        return kitty_matches(kp, cp, 5) || mok_matches(mok, cp, 5);
    }
    if modifier == MOD_SHIFT {
        if is_letter && bytes.len() == 1 && bytes[0] == ch - 32 {
            return true;
        }
        return kitty_matches(kp, cp, MOD_SHIFT) || mok_matches(mok, cp, MOD_SHIFT);
    }
    if modifier != 0 {
        return kitty_matches(kp, cp, modifier) || mok_matches(mok, cp, modifier);
    }
    (bytes.len() == 1 && bytes[0] == ch) || kitty_matches(kp, cp, 0)
}

/// Match input data against a key identifier string: true when the bytes
/// are the specified key with exactly the specified modifiers.
#[verifier::rlimit(80)]
pub fn matches_key(bytes: &[u8], key_id: &str, kitty_protocol_active: bool) -> (r: bool)
    ensures
        r == matches_key_spec(bytes@, key_id@, kitty_protocol_active),
{
    let (key_s, modifier) = match parse_key_id(key_id) {
        Some(p) => p,
        None => return false,
    };
    let key = key_s.as_str();
    let kp = parse_kitty_sequence(bytes);
    let mok = parse_modify_other_keys(bytes);
    if ci_eq_str(key, "escape") || ci_eq_str(key, "esc") {
        return modifier == 0 && (is1(bytes, 27) || kitty_matches(&kp, CP_ESCAPE, 0));
    }
    if ci_eq_str(key, "space") {
        if modifier == MOD_CTRL && is1(bytes, 0) {
            return true;
        }
        if modifier == MOD_ALT && !kitty_protocol_active && is2(bytes, 27, 32) {
            return true;
        }
        if modifier == 0 {
            return is1(bytes, 32) || kitty_matches(&kp, CP_SPACE, 0);
        }
        return kitty_matches(&kp, CP_SPACE, modifier) || mok_matches(mok, CP_SPACE, modifier);
    }
    if ci_eq_str(key, "tab") {
        if modifier == MOD_SHIFT {
            return is3(bytes, 27, 91, 90) || kitty_matches(&kp, CP_TAB, MOD_SHIFT) || mok_matches(
                mok,
                CP_TAB,
                MOD_SHIFT,
            );
        }
        if modifier == MOD_ALT && is2(bytes, 27, 9) {
            return true;
        }
        if modifier == 0 {
            return is1(bytes, 9) || kitty_matches(&kp, CP_TAB, 0);
        }
        return kitty_matches(&kp, CP_TAB, modifier) || mok_matches(mok, CP_TAB, modifier);
    }
    if ci_eq_str(key, "enter") || ci_eq_str(key, "return") {
        if modifier == MOD_ALT && is2(bytes, 27, 13) {
            return true;
        }
        if modifier == 0 {
            return is1(bytes, 13) || is1(bytes, 10) || is3(bytes, 27, 79, 77) || kitty_matches(
                &kp,
                CP_ENTER,
                0,
            ) || kitty_matches(&kp, CP_KP_ENTER, 0);
        }
        return kitty_matches(&kp, CP_ENTER, modifier) || kitty_matches(&kp, CP_KP_ENTER, modifier)
            || mok_matches(mok, CP_ENTER, modifier) || mok_matches(mok, CP_KP_ENTER, modifier);
    }
    if ci_eq_str(key, "backspace") {
        if modifier == MOD_ALT {
            return is2(bytes, 27, 127) || is2(bytes, 27, 8) || kitty_matches(
                &kp,
                CP_BACKSPACE,
                MOD_ALT,
            ) || mok_matches(mok, CP_BACKSPACE, MOD_ALT);
        }
        if modifier == 0 {
            return is1(bytes, 127) || is1(bytes, 8) || kitty_matches(&kp, CP_BACKSPACE, 0);
        }
        return kitty_matches(&kp, CP_BACKSPACE, modifier) || mok_matches(
            mok,
            CP_BACKSPACE,
            modifier,
        );
    }
    if ci_eq_str(key, "insert") {
        return nav_matches_exec(bytes, "insert", FUNC_INSERT, modifier, &kp);
    }
    if ci_eq_str(key, "delete") {
        return nav_matches_exec(bytes, "delete", FUNC_DELETE, modifier, &kp);
    }
    if ci_eq_str(key, "clear") {
        return nav_matches_exec(bytes, "clear", FUNC_CLEAR, modifier, &kp);
    }
    if ci_eq_str(key, "home") {
        return nav_matches_exec(bytes, "home", FUNC_HOME, modifier, &kp);
    }
    if ci_eq_str(key, "end") {
        return nav_matches_exec(bytes, "end", FUNC_END, modifier, &kp);
    }
    if ci_eq_str(key, "pageup") {
        return nav_matches_exec(bytes, "pageUp", FUNC_PAGE_UP, modifier, &kp);
    }
    if ci_eq_str(key, "pagedown") {
        return nav_matches_exec(bytes, "pageDown", FUNC_PAGE_DOWN, modifier, &kp);
    }
    if ci_eq_str(key, "up") {
        if modifier == MOD_ALT {
            return is2(bytes, 27, 112) || kitty_matches(&kp, ARROW_UP, MOD_ALT);
        }
        return nav_matches_exec(bytes, "up", ARROW_UP, modifier, &kp);
    }
    if ci_eq_str(key, "down") {
        if modifier == MOD_ALT {
            return is2(bytes, 27, 110) || kitty_matches(&kp, ARROW_DOWN, MOD_ALT);
        }
        return nav_matches_exec(bytes, "down", ARROW_DOWN, modifier, &kp);
    }
    if ci_eq_str(key, "left") {
        return horizontal_matches_exec(
            bytes,
            "left",
            ARROW_LEFT,
            98,
            68,
            modifier,
            kitty_protocol_active,
            &kp,
        );
    }
    if ci_eq_str(key, "right") {
        return horizontal_matches_exec(
            bytes,
            "right",
            ARROW_RIGHT,
            102,
            67,
            modifier,
            kitty_protocol_active,
            &kp,
        );
    }
    if let Some(cp) = f_code_exec(key) {
        if modifier == 0 {
            return matches_legacy_key(bytes, key);
        }
        return kitty_matches(&kp, cp, modifier);
    }
    let kv = chars_of(key);
    if kv.len() == 1 && (kv[0] as u32) < 128 {
        return single_char_matches_exec(bytes, kv[0], modifier, kitty_protocol_active, &kp, mok);
    }
    false
}

/// The Kitty reading of the input names `expected_codepoint` with the
/// given modifiers, allowing the base-layout key for non-letter,
/// non-symbol keys.
pub open spec fn kitty_sequence_match(b: Seq<u8>, expected_codepoint: i32, expected_modifier: u32) -> bool {
    match kitty_spec(b) {
        None => false,
        Some(p) => {
            if p.modifier & !LOCK_MASK != expected_modifier & !LOCK_MASK {
                false
            } else if p.codepoint == expected_codepoint {
                true
            } else {
                match p.base_layout_key {
                    Some(base) => base == expected_codepoint && !is_ascii_letter_cp(p.codepoint)
                        && !symbol_key(p.codepoint),
                    None => false,
                }
            }
        },
    }
}

/// Match Kitty protocol input against a codepoint and modifier mask.
pub fn matches_kitty_sequence(bytes: &[u8], expected_codepoint: i32, expected_modifier: u32) -> (r:
    bool)
    ensures
        r == kitty_sequence_match(bytes@, expected_codepoint, expected_modifier),
{
    let parsed = match parse_kitty_sequence(bytes) {
        Some(p) => p,
        None => return false,
    };
    if parsed.modifier & !LOCK_MASK != expected_modifier & !LOCK_MASK {
        return false;
    }
    if parsed.codepoint == expected_codepoint {
        return true;
    }
    let cp = parsed.codepoint;
    match parsed.base_layout_key {
        Some(base) => base == expected_codepoint && !((65 <= cp && cp <= 90) || (97 <= cp && cp
            <= 122)) && !is_symbol_key(cp),
        None => false,
    }
}

/// Check whether input is a legacy escape sequence for the given key name.
pub fn matches_legacy_sequence(bytes: &[u8], key_name: &str) -> (r: bool)
    ensures
        r == (legacy_name(bytes@) == Some(key_name@)),
{
    match legacy_lookup(bytes) {
        Some(id) => str_eq(id, key_name),
        None => false,
    }
}

/// Whether `data` is the key `key_id`, as `matches_key` decides it; kept
/// opaque so that callers handling several keys reason about each at once.
#[verifier::opaque]
pub open spec fn is_key(data: Seq<u8>, key_id: Seq<char>, kitty_protocol_active: bool) -> bool {
    matches_key_spec(data, key_id, kitty_protocol_active)
}

/// `matches_key`, stated through `is_key`.
pub fn key_is(bytes: &[u8], key_id: &str, kitty_protocol_active: bool) -> (r: bool)
    ensures
        r == is_key(bytes@, key_id@, kitty_protocol_active),
{
    let r = matches_key(bytes, key_id, kitty_protocol_active);
    proof {
        reveal(is_key);
    }
    r
}


/// `ESC [ H` and `ESC O H` are the Home key and not the End key; `ESC [ F`
/// and `ESC O F` are the End key and not the Home key.
pub proof fn law_home_end_sequences(o: u8, kitty_protocol_active: bool)
    requires
        o == 91 || o == 79,
    ensures
        key_matches(seq![27u8, o, 72u8], "home"@, 0, kitty_protocol_active),
        !key_matches(seq![27u8, o, 72u8], "end"@, 0, kitty_protocol_active),
        key_matches(seq![27u8, o, 70u8], "end"@, 0, kitty_protocol_active),
        !key_matches(seq![27u8, o, 70u8], "home"@, 0, kitty_protocol_active),
{
    reveal_strlit("home");
    reveal_strlit("end");
    reveal_strlit("escape");
    reveal_strlit("esc");
    reveal_strlit("space");
    reveal_strlit("tab");
    reveal_strlit("enter");
    reveal_strlit("return");
    reveal_strlit("backspace");
    reveal_strlit("insert");
    reveal_strlit("delete");
    reveal_strlit("clear");
    super::legacy::law_cursor_keys_both_modes(72);
    super::legacy::law_cursor_keys_both_modes(70);
    assert(kitty_spec(seq![27u8, o, 72u8]) is None);
    assert(kitty_spec(seq![27u8, o, 70u8]) is None);
    assert(!ci_eq("home"@, "escape"@) && !ci_eq("home"@, "esc"@) && !ci_eq("home"@, "space"@));
    assert(!ci_eq("home"@, "tab"@) && !ci_eq("home"@, "enter"@) && !ci_eq("home"@, "return"@));
    assert(!ci_eq("home"@, "backspace"@) && !ci_eq("home"@, "insert"@) && !ci_eq("home"@, "delete"@));
    assert(!ci_eq("home"@, "clear"@));
    assert(ci_eq("home"@, "home"@));
    assert(ascii_lower("end"@[1]) != ascii_lower("esc"@[1]));
    assert(!ci_eq("end"@, "escape"@) && !ci_eq("end"@, "esc"@) && !ci_eq("end"@, "space"@));
    assert(!ci_eq("end"@, "tab"@) && !ci_eq("end"@, "enter"@) && !ci_eq("end"@, "return"@));
    assert(!ci_eq("end"@, "backspace"@) && !ci_eq("end"@, "insert"@) && !ci_eq("end"@, "delete"@));
    assert(!ci_eq("end"@, "clear"@) && !ci_eq("end"@, "home"@));
    assert(ci_eq("end"@, "end"@));
}

} // verus!
