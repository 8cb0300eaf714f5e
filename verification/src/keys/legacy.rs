//! Legacy terminal escape sequences and the keys they stand for.

use vstd::prelude::*;
use vstd::string::*;

use super::types::{MOD_CTRL, MOD_SHIFT};
use crate::strs::{concat, dec_digits, digit_char, str_eq};

verus! {

/// The key that a legacy escape sequence (SS3, CSI, Linux console) stands for.
pub open spec fn legacy_name(b: Seq<u8>) -> Option<Seq<char>> {
    if b == seq![27u8, 79u8, 65u8] {
        Some("up"@)
    } else if b == seq![27u8, 79u8, 66u8] {
        Some("down"@)
    } else if b == seq![27u8, 79u8, 67u8] {
        Some("right"@)
    } else if b == seq![27u8, 79u8, 68u8] {
        Some("left"@)
    } else if b == seq![27u8, 91u8, 65u8] {
        Some("up"@)
    } else if b == seq![27u8, 91u8, 66u8] {
        Some("down"@)
    } else if b == seq![27u8, 91u8, 67u8] {
        Some("right"@)
    } else if b == seq![27u8, 91u8, 68u8] {
        Some("left"@)
    } else if b == seq![27u8, 79u8, 72u8] {
        Some("home"@)
    } else if b == seq![27u8, 79u8, 70u8] {
        Some("end"@)
    } else if b == seq![27u8, 91u8, 72u8] {
        Some("home"@)
    } else if b == seq![27u8, 91u8, 70u8] {
        Some("end"@)
    } else if b == seq![27u8, 91u8, 49u8, 126u8] {
        Some("home"@)
    } else if b == seq![27u8, 91u8, 55u8, 126u8] {
        Some("home"@)
    } else if b == seq![27u8, 91u8, 52u8, 126u8] {
        Some("end"@)
    } else if b == seq![27u8, 91u8, 56u8, 126u8] {
        Some("end"@)
    } else if b == seq![27u8, 91u8, 69u8] {
        Some("clear"@)
    } else if b == seq![27u8, 79u8, 69u8] {
        Some("clear"@)
    } else if b == seq![27u8, 79u8, 101u8] {
        Some("ctrl+clear"@)
    } else if b == seq![27u8, 91u8, 101u8] {
        Some("shift+clear"@)
    } else if b == seq![27u8, 91u8, 50u8, 126u8] {
        Some("insert"@)
    } else if b == seq![27u8, 91u8, 50u8, 36u8] {
        Some("shift+insert"@)
    } else if b == seq![27u8, 91u8, 50u8, 94u8] {
        Some("ctrl+insert"@)
    } else if b == seq![27u8, 91u8, 51u8, 126u8] {
        Some("delete"@)
    } else if b == seq![27u8, 91u8, 51u8, 36u8] {
        Some("shift+delete"@)
    } else if b == seq![27u8, 91u8, 51u8, 94u8] {
        Some("ctrl+delete"@)
    } else if b == seq![27u8, 91u8, 53u8, 126u8] {
        Some("pageUp"@)
    } else if b == seq![27u8, 91u8, 54u8, 126u8] {
        Some("pageDown"@)
    } else if b == seq![27u8, 91u8, 91u8, 53u8, 126u8] {
        Some("pageUp"@)
    } else if b == seq![27u8, 91u8, 91u8, 54u8, 126u8] {
        Some("pageDown"@)
    } else if b == seq![27u8, 91u8, 97u8] {
        Some("shift+up"@)
    } else if b == seq![27u8, 91u8, 98u8] {
        Some("shift+down"@)
    } else if b == seq![27u8, 91u8, 99u8] {
        Some("shift+right"@)
    } else if b == seq![27u8, 91u8, 100u8] {
        Some("shift+left"@)
    } else if b == seq![27u8, 79u8, 97u8] {
        Some("ctrl+up"@)
    } else if b == seq![27u8, 79u8, 98u8] {
        Some("ctrl+down"@)
    } else if b == seq![27u8, 79u8, 99u8] {
        Some("ctrl+right"@)
    } else if b == seq![27u8, 79u8, 100u8] {
        Some("ctrl+left"@)
    } else if b == seq![27u8, 91u8, 53u8, 36u8] {
        Some("shift+pageUp"@)
    } else if b == seq![27u8, 91u8, 54u8, 36u8] {
        Some("shift+pageDown"@)
    } else if b == seq![27u8, 91u8, 55u8, 36u8] {
        Some("shift+home"@)
    } else if b == seq![27u8, 91u8, 56u8, 36u8] {
        Some("shift+end"@)
    } else if b == seq![27u8, 91u8, 53u8, 94u8] {
        Some("ctrl+pageUp"@)
    } else if b == seq![27u8, 91u8, 54u8, 94u8] {
        Some("ctrl+pageDown"@)
    } else if b == seq![27u8, 91u8, 55u8, 94u8] {
        Some("ctrl+home"@)
    } else if b == seq![27u8, 91u8, 56u8, 94u8] {
        Some("ctrl+end"@)
    } else if b == seq![27u8, 79u8, 80u8] {
        Some("f1"@)
    } else if b == seq![27u8, 79u8, 81u8] {
        Some("f2"@)
    } else if b == seq![27u8, 79u8, 82u8] {
        Some("f3"@)
    } else if b == seq![27u8, 79u8, 83u8] {
        Some("f4"@)
    } else if b == seq![27u8, 91u8, 49u8, 49u8, 126u8] {
        Some("f1"@)
    } else if b == seq![27u8, 91u8, 49u8, 50u8, 126u8] {
        Some("f2"@)
    } else if b == seq![27u8, 91u8, 49u8, 51u8, 126u8] {
        Some("f3"@)
    } else if b == seq![27u8, 91u8, 49u8, 52u8, 126u8] {
        Some("f4"@)
    } else if b == seq![27u8, 91u8, 91u8, 65u8] {
        Some("f1"@)
    } else if b == seq![27u8, 91u8, 91u8, 66u8] {
        Some("f2"@)
    } else if b == seq![27u8, 91u8, 91u8, 67u8] {
        Some("f3"@)
    } else if b == seq![27u8, 91u8, 91u8, 68u8] {
        Some("f4"@)
    } else if b == seq![27u8, 91u8, 91u8, 69u8] {
        Some("f5"@)
    } else if b == seq![27u8, 91u8, 49u8, 53u8, 126u8] {
        Some("f5"@)
    } else if b == seq![27u8, 91u8, 49u8, 55u8, 126u8] {
        Some("f6"@)
    } else if b == seq![27u8, 91u8, 49u8, 56u8, 126u8] {
        Some("f7"@)
    } else if b == seq![27u8, 91u8, 49u8, 57u8, 126u8] {
        Some("f8"@)
    } else if b == seq![27u8, 91u8, 50u8, 48u8, 126u8] {
        Some("f9"@)
    } else if b == seq![27u8, 91u8, 50u8, 49u8, 126u8] {
        Some("f10"@)
    } else if b == seq![27u8, 91u8, 50u8, 51u8, 126u8] {
        Some("f11"@)
    } else if b == seq![27u8, 91u8, 50u8, 52u8, 126u8] {
        Some("f12"@)
    } else if b == seq![27u8, 98u8] {
        Some("alt+left"@)
    } else if b == seq![27u8, 102u8] {
        Some("alt+right"@)
    } else if b == seq![27u8, 112u8] {
        Some("alt+up"@)
    } else if b == seq![27u8, 110u8] {
        Some("alt+down"@)
    } else {
        None
    }
}

/// The key that the final byte of a cursor-key sequence (`ESC [ f` in
/// normal cursor mode, `ESC O f` in application mode) stands for: `A` up,
/// `B` down, `C` right, `D` left, `E` the keypad's middle key (clear),
/// `H` home, `F` end.
pub open spec fn cursor_key_final(f: u8) -> Option<Seq<char>> {
    if f == 69 {
        Some("clear"@)
    } else if f == 65 {
        Some("up"@)
    } else if f == 66 {
        Some("down"@)
    } else if f == 67 {
        Some("right"@)
    } else if f == 68 {
        Some("left"@)
    } else if f == 72 {
        Some("home"@)
    } else if f == 70 {
        Some("end"@)
    } else {
        None
    }
}

/// The key of the VT220 editing-keypad sequence `ESC [ d ~` for the digit
/// `d`: `1` and `7` home, `2` insert, `3` delete, `4` and `8` end,
/// `5` page up, `6` page down.
pub open spec fn vt_keypad_digit(d: u8) -> Option<Seq<char>> {
    if d == 49 || d == 55 {
        Some("home"@)
    } else if d == 50 {
        Some("insert"@)
    } else if d == 51 {
        Some("delete"@)
    } else if d == 52 || d == 56 {
        Some("end"@)
    } else if d == 53 {
        Some("pageUp"@)
    } else if d == 54 {
        Some("pageDown"@)
    } else {
        None
    }
}

/// The cursor keys read the same in both cursor modes: `ESC [ f` and
/// `ESC O f` both stand for the key of the final byte `f` (so `ESC [ H`
/// and `ESC O H` are Home, `ESC [ F` and `ESC O F` are End).
pub proof fn law_cursor_keys_both_modes(f: u8)
    requires
        cursor_key_final(f) is Some,
    ensures
        legacy_name(seq![27u8, 91u8, f]) == cursor_key_final(f),
        legacy_name(seq![27u8, 79u8, f]) == cursor_key_final(f),
{
}

/// The VT220 editing keypad: `ESC [ d ~` stands for the key of the digit
/// `d`; the rxvt forms `ESC [ d $` and `ESC [ d ^` of the keys other than
/// `1` and `4` stand for that key with shift and with ctrl; and the Linux
/// console forms `ESC [ [ 5 ~` and `ESC [ [ 6 ~` are page up and page down.
pub proof fn law_vt_keypad_keys(d: u8)
    requires
        vt_keypad_digit(d) is Some,
    ensures
        legacy_name(seq![27u8, 91u8, d, 126u8]) == vt_keypad_digit(d),
        d != 49 && d != 52 ==> legacy_name(seq![27u8, 91u8, d, 36u8]) == Some(
            "shift+"@ + vt_keypad_digit(d).unwrap(),
        ),
        d != 49 && d != 52 ==> legacy_name(seq![27u8, 91u8, d, 94u8]) == Some(
            "ctrl+"@ + vt_keypad_digit(d).unwrap(),
        ),
        d == 53 || d == 54 ==> legacy_name(seq![27u8, 91u8, 91u8, d, 126u8]) == vt_keypad_digit(d),
{
    reveal_strlit("shift+");
    reveal_strlit("ctrl+");
    reveal_strlit("home");
    reveal_strlit("insert");
    reveal_strlit("delete");
    reveal_strlit("end");
    reveal_strlit("pageUp");
    reveal_strlit("pageDown");
    reveal_strlit("shift+home");
    reveal_strlit("shift+insert");
    reveal_strlit("shift+delete");
    reveal_strlit("shift+end");
    reveal_strlit("shift+pageUp");
    reveal_strlit("shift+pageDown");
    reveal_strlit("ctrl+home");
    reveal_strlit("ctrl+insert");
    reveal_strlit("ctrl+delete");
    reveal_strlit("ctrl+end");
    reveal_strlit("ctrl+pageUp");
    reveal_strlit("ctrl+pageDown");
    let k = vt_keypad_digit(d).unwrap();
    if d != 49 && d != 52 {
        let sh = legacy_name(seq![27u8, 91u8, d, 36u8]).unwrap();
        let ct = legacy_name(seq![27u8, 91u8, d, 94u8]).unwrap();
        assert(sh =~= "shift+"@ + k);
        assert(ct =~= "ctrl+"@ + k);
    }
}

/// rxvt's shifted and ctrl cursor keys: the final byte of an arrow key or
/// of the keypad's middle key (`A` to `E`) in lower case stands, after
/// `ESC [`, for that key with shift, and after `ESC O`, for it with ctrl.
pub proof fn law_rxvt_modified_cursor_keys(f: u8)
    requires
        65 <= f <= 69,
    ensures
        legacy_name(seq![27u8, 91u8, (f + 32) as u8]) == Some("shift+"@ + cursor_key_final(f).unwrap()),
        legacy_name(seq![27u8, 79u8, (f + 32) as u8]) == Some("ctrl+"@ + cursor_key_final(f).unwrap()),
{
    reveal_strlit("shift+");
    reveal_strlit("ctrl+");
    reveal_strlit("up");
    reveal_strlit("down");
    reveal_strlit("right");
    reveal_strlit("left");
    reveal_strlit("clear");
    reveal_strlit("shift+up");
    reveal_strlit("shift+down");
    reveal_strlit("shift+right");
    reveal_strlit("shift+left");
    reveal_strlit("shift+clear");
    reveal_strlit("ctrl+up");
    reveal_strlit("ctrl+down");
    reveal_strlit("ctrl+right");
    reveal_strlit("ctrl+left");
    reveal_strlit("ctrl+clear");
    let k = cursor_key_final(f).unwrap();
    let sh = legacy_name(seq![27u8, 91u8, (f + 32) as u8]).unwrap();
    let ct = legacy_name(seq![27u8, 79u8, (f + 32) as u8]).unwrap();
    assert(sh =~= "shift+"@ + k);
    assert(ct =~= "ctrl+"@ + k);
}

/// The VT220 code of the function key F`n` (`n` from 1 to 12), as sent in
/// `ESC [ code ~`: 11 to 15 for F1 to F5, 17 to 21 for F6 to F10, 23 and
/// 24 for F11 and F12.
pub open spec fn vt_function_code(n: nat) -> nat {
    if n <= 5 {
        10 + n
    } else if n <= 10 {
        11 + n
    } else {
        12 + n
    }
}

/// The function keys: `ESC [ c ~`, with the two decimal digits of the VT220
/// code `c` of F`n`, is the key `f` followed by the number `n`; F1 to F4
/// are also `ESC O P` to `ESC O S`, and F1 to F5 also `ESC [ [ A` to
/// `ESC [ [ E` (Linux console).
#[verifier::rlimit(40)]
pub proof fn law_function_keys(n: nat)
    requires
        1 <= n <= 12,
    ensures
        legacy_name(
            seq![27u8, 91u8, (48 + vt_function_code(n) / 10) as u8, (48 + vt_function_code(n) % 10) as u8, 126u8],
        ) == Some(seq!['f'] + dec_digits(n)),
        n <= 4 ==> legacy_name(seq![27u8, 79u8, (79 + n) as u8]) == Some(seq!['f'] + dec_digits(n)),
        n <= 5 ==> legacy_name(seq![27u8, 91u8, 91u8, (64 + n) as u8]) == Some(seq!['f'] + dec_digits(n)),
{
    reveal_with_fuel(dec_digits, 2);
    let name = seq!['f'] + dec_digits(n);
    if n == 1 {
        reveal_strlit("f1");
        assert(name =~= "f1"@);
    } else if n == 2 {
        reveal_strlit("f2");
        assert(name =~= "f2"@);
    } else if n == 3 {
        reveal_strlit("f3");
        assert(name =~= "f3"@);
    } else if n == 4 {
        reveal_strlit("f4");
        assert(name =~= "f4"@);
    } else if n == 5 {
        reveal_strlit("f5");
        assert(name =~= "f5"@);
    } else if n == 6 {
        reveal_strlit("f6");
        assert(name =~= "f6"@);
    } else if n == 7 {
        reveal_strlit("f7");
        assert(name =~= "f7"@);
    } else if n == 8 {
        reveal_strlit("f8");
        assert(name =~= "f8"@);
    } else if n == 9 {
        reveal_strlit("f9");
        assert(name =~= "f9"@);
    } else if n == 10 {
        reveal_strlit("f10");
        assert(dec_digits(10) == dec_digits(1) + seq![digit_char(0)]);
        assert(name =~= "f10"@);
    } else if n == 11 {
        reveal_strlit("f11");
        assert(dec_digits(11) == dec_digits(1) + seq![digit_char(1)]);
        assert(name =~= "f11"@);
    } else {
        reveal_strlit("f12");
        assert(dec_digits(12) == dec_digits(1) + seq![digit_char(2)]);
        assert(name =~= "f12"@);
    }
}

/// Every legacy sequence is two to five bytes long.
pub proof fn lemma_legacy_lengths(b: Seq<u8>)
    ensures
        legacy_name(b) is Some ==> 2 <= b.len() <= 5,
{
}

/// Look `bytes` up in the table of legacy sequences.
#[verifier::rlimit(60)]
pub fn legacy_lookup(bytes: &[u8]) -> (r: Option<&'static str>)
    ensures
        match r {
            Some(s) => legacy_name(bytes@) == Some(s@),
            None => legacy_name(bytes@) is None,
        },
{
    let n = bytes.len();
    if n == 3 && bytes[0] == 27 && bytes[1] == 79 && bytes[2] == 65 {
        proof { assert(bytes@ =~= seq![27u8, 79u8, 65u8]); }
        return Some("up");
    }
    if n == 3 && bytes[0] == 27 && bytes[1] == 79 && bytes[2] == 66 {
        proof { assert(bytes@ =~= seq![27u8, 79u8, 66u8]); }
        return Some("down");
    }
    if n == 3 && bytes[0] == 27 && bytes[1] == 79 && bytes[2] == 67 {
        proof { assert(bytes@ =~= seq![27u8, 79u8, 67u8]); }
        return Some("right");
    }
    if n == 3 && bytes[0] == 27 && bytes[1] == 79 && bytes[2] == 68 {
        proof { assert(bytes@ =~= seq![27u8, 79u8, 68u8]); }
        return Some("left");
    }
    if n == 3 && bytes[0] == 27 && bytes[1] == 91 && bytes[2] == 65 {
        proof { assert(bytes@ =~= seq![27u8, 91u8, 65u8]); }
        return Some("up");
    }
    if n == 3 && bytes[0] == 27 && bytes[1] == 91 && bytes[2] == 66 {
        proof { assert(bytes@ =~= seq![27u8, 91u8, 66u8]); }
        return Some("down");
    }
    if n == 3 && bytes[0] == 27 && bytes[1] == 91 && bytes[2] == 67 {
        proof { assert(bytes@ =~= seq![27u8, 91u8, 67u8]); }
        return Some("right");
    }
    if n == 3 && bytes[0] == 27 && bytes[1] == 91 && bytes[2] == 68 {
        proof { assert(bytes@ =~= seq![27u8, 91u8, 68u8]); }
        return Some("left");
    }
    if n == 3 && bytes[0] == 27 && bytes[1] == 79 && bytes[2] == 72 {
        proof { assert(bytes@ =~= seq![27u8, 79u8, 72u8]); }
        return Some("home");
    }
    if n == 3 && bytes[0] == 27 && bytes[1] == 79 && bytes[2] == 70 {
        proof { assert(bytes@ =~= seq![27u8, 79u8, 70u8]); }
        return Some("end");
    }
    if n == 3 && bytes[0] == 27 && bytes[1] == 91 && bytes[2] == 72 {
        proof { assert(bytes@ =~= seq![27u8, 91u8, 72u8]); }
        return Some("home");
    }
    if n == 3 && bytes[0] == 27 && bytes[1] == 91 && bytes[2] == 70 {
        proof { assert(bytes@ =~= seq![27u8, 91u8, 70u8]); }
        return Some("end");
    }
    if n == 4 && bytes[0] == 27 && bytes[1] == 91 && bytes[2] == 49 && bytes[3] == 126 {
        proof { assert(bytes@ =~= seq![27u8, 91u8, 49u8, 126u8]); }
        return Some("home");
    }
    if n == 4 && bytes[0] == 27 && bytes[1] == 91 && bytes[2] == 55 && bytes[3] == 126 {
        proof { assert(bytes@ =~= seq![27u8, 91u8, 55u8, 126u8]); }
        return Some("home");
    }
    if n == 4 && bytes[0] == 27 && bytes[1] == 91 && bytes[2] == 52 && bytes[3] == 126 {
        proof { assert(bytes@ =~= seq![27u8, 91u8, 52u8, 126u8]); }
        return Some("end");
    }
    if n == 4 && bytes[0] == 27 && bytes[1] == 91 && bytes[2] == 56 && bytes[3] == 126 {
        proof { assert(bytes@ =~= seq![27u8, 91u8, 56u8, 126u8]); }
        return Some("end");
    }
    if n == 3 && bytes[0] == 27 && bytes[1] == 91 && bytes[2] == 69 {
        proof { assert(bytes@ =~= seq![27u8, 91u8, 69u8]); }
        return Some("clear");
    }
    if n == 3 && bytes[0] == 27 && bytes[1] == 79 && bytes[2] == 69 {
        proof { assert(bytes@ =~= seq![27u8, 79u8, 69u8]); }
        return Some("clear");
    }
    if n == 3 && bytes[0] == 27 && bytes[1] == 79 && bytes[2] == 101 {
        proof { assert(bytes@ =~= seq![27u8, 79u8, 101u8]); }
        return Some("ctrl+clear");
    }
    if n == 3 && bytes[0] == 27 && bytes[1] == 91 && bytes[2] == 101 {
        proof { assert(bytes@ =~= seq![27u8, 91u8, 101u8]); }
        return Some("shift+clear");
    }
    if n == 4 && bytes[0] == 27 && bytes[1] == 91 && bytes[2] == 50 && bytes[3] == 126 {
        proof { assert(bytes@ =~= seq![27u8, 91u8, 50u8, 126u8]); }
        return Some("insert");
    }
    if n == 4 && bytes[0] == 27 && bytes[1] == 91 && bytes[2] == 50 && bytes[3] == 36 {
        proof { assert(bytes@ =~= seq![27u8, 91u8, 50u8, 36u8]); }
        return Some("shift+insert");
    }
    if n == 4 && bytes[0] == 27 && bytes[1] == 91 && bytes[2] == 50 && bytes[3] == 94 {
        proof { assert(bytes@ =~= seq![27u8, 91u8, 50u8, 94u8]); }
        return Some("ctrl+insert");
    }
    if n == 4 && bytes[0] == 27 && bytes[1] == 91 && bytes[2] == 51 && bytes[3] == 126 {
        proof { assert(bytes@ =~= seq![27u8, 91u8, 51u8, 126u8]); }
        return Some("delete");
    }
    if n == 4 && bytes[0] == 27 && bytes[1] == 91 && bytes[2] == 51 && bytes[3] == 36 {
        proof { assert(bytes@ =~= seq![27u8, 91u8, 51u8, 36u8]); }
        return Some("shift+delete");
    }
    if n == 4 && bytes[0] == 27 && bytes[1] == 91 && bytes[2] == 51 && bytes[3] == 94 {
        proof { assert(bytes@ =~= seq![27u8, 91u8, 51u8, 94u8]); }
        return Some("ctrl+delete");
    }
    if n == 4 && bytes[0] == 27 && bytes[1] == 91 && bytes[2] == 53 && bytes[3] == 126 {
        proof { assert(bytes@ =~= seq![27u8, 91u8, 53u8, 126u8]); }
        return Some("pageUp");
    }
    if n == 4 && bytes[0] == 27 && bytes[1] == 91 && bytes[2] == 54 && bytes[3] == 126 {
        proof { assert(bytes@ =~= seq![27u8, 91u8, 54u8, 126u8]); }
        return Some("pageDown");
    }
    if n == 5 && bytes[0] == 27 && bytes[1] == 91 && bytes[2] == 91 && bytes[3] == 53 && bytes[4] == 126 {
        proof { assert(bytes@ =~= seq![27u8, 91u8, 91u8, 53u8, 126u8]); }
        return Some("pageUp");
    }
    if n == 5 && bytes[0] == 27 && bytes[1] == 91 && bytes[2] == 91 && bytes[3] == 54 && bytes[4] == 126 {
        proof { assert(bytes@ =~= seq![27u8, 91u8, 91u8, 54u8, 126u8]); }
        return Some("pageDown");
    }
    if n == 3 && bytes[0] == 27 && bytes[1] == 91 && bytes[2] == 97 {
        proof { assert(bytes@ =~= seq![27u8, 91u8, 97u8]); }
        return Some("shift+up");
    }
    if n == 3 && bytes[0] == 27 && bytes[1] == 91 && bytes[2] == 98 {
        proof { assert(bytes@ =~= seq![27u8, 91u8, 98u8]); }
        return Some("shift+down");
    }
    if n == 3 && bytes[0] == 27 && bytes[1] == 91 && bytes[2] == 99 {
        proof { assert(bytes@ =~= seq![27u8, 91u8, 99u8]); }
        return Some("shift+right");
    }
    if n == 3 && bytes[0] == 27 && bytes[1] == 91 && bytes[2] == 100 {
        proof { assert(bytes@ =~= seq![27u8, 91u8, 100u8]); }
        return Some("shift+left");
    }
    if n == 3 && bytes[0] == 27 && bytes[1] == 79 && bytes[2] == 97 {
        proof { assert(bytes@ =~= seq![27u8, 79u8, 97u8]); }
        return Some("ctrl+up");
    }
    if n == 3 && bytes[0] == 27 && bytes[1] == 79 && bytes[2] == 98 {
        proof { assert(bytes@ =~= seq![27u8, 79u8, 98u8]); }
        return Some("ctrl+down");
    }
    if n == 3 && bytes[0] == 27 && bytes[1] == 79 && bytes[2] == 99 {
        proof { assert(bytes@ =~= seq![27u8, 79u8, 99u8]); }
        return Some("ctrl+right");
    }
    if n == 3 && bytes[0] == 27 && bytes[1] == 79 && bytes[2] == 100 {
        proof { assert(bytes@ =~= seq![27u8, 79u8, 100u8]); }
        return Some("ctrl+left");
    }
    if n == 4 && bytes[0] == 27 && bytes[1] == 91 && bytes[2] == 53 && bytes[3] == 36 {
        proof { assert(bytes@ =~= seq![27u8, 91u8, 53u8, 36u8]); }
        return Some("shift+pageUp");
    }
    if n == 4 && bytes[0] == 27 && bytes[1] == 91 && bytes[2] == 54 && bytes[3] == 36 {
        proof { assert(bytes@ =~= seq![27u8, 91u8, 54u8, 36u8]); }
        return Some("shift+pageDown");
    }
    if n == 4 && bytes[0] == 27 && bytes[1] == 91 && bytes[2] == 55 && bytes[3] == 36 {
        proof { assert(bytes@ =~= seq![27u8, 91u8, 55u8, 36u8]); }
        return Some("shift+home");
    }
    if n == 4 && bytes[0] == 27 && bytes[1] == 91 && bytes[2] == 56 && bytes[3] == 36 {
        proof { assert(bytes@ =~= seq![27u8, 91u8, 56u8, 36u8]); }
        return Some("shift+end");
    }
    if n == 4 && bytes[0] == 27 && bytes[1] == 91 && bytes[2] == 53 && bytes[3] == 94 {
        proof { assert(bytes@ =~= seq![27u8, 91u8, 53u8, 94u8]); }
        return Some("ctrl+pageUp");
    }
    if n == 4 && bytes[0] == 27 && bytes[1] == 91 && bytes[2] == 54 && bytes[3] == 94 {
        proof { assert(bytes@ =~= seq![27u8, 91u8, 54u8, 94u8]); }
        return Some("ctrl+pageDown");
    }
    if n == 4 && bytes[0] == 27 && bytes[1] == 91 && bytes[2] == 55 && bytes[3] == 94 {
        proof { assert(bytes@ =~= seq![27u8, 91u8, 55u8, 94u8]); }
        return Some("ctrl+home");
    }
    if n == 4 && bytes[0] == 27 && bytes[1] == 91 && bytes[2] == 56 && bytes[3] == 94 {
        proof { assert(bytes@ =~= seq![27u8, 91u8, 56u8, 94u8]); }
        return Some("ctrl+end");
    }
    if n == 3 && bytes[0] == 27 && bytes[1] == 79 && bytes[2] == 80 {
        proof { assert(bytes@ =~= seq![27u8, 79u8, 80u8]); }
        return Some("f1");
    }
    if n == 3 && bytes[0] == 27 && bytes[1] == 79 && bytes[2] == 81 {
        proof { assert(bytes@ =~= seq![27u8, 79u8, 81u8]); }
        return Some("f2");
    }
    if n == 3 && bytes[0] == 27 && bytes[1] == 79 && bytes[2] == 82 {
        proof { assert(bytes@ =~= seq![27u8, 79u8, 82u8]); }
        return Some("f3");
    }
    if n == 3 && bytes[0] == 27 && bytes[1] == 79 && bytes[2] == 83 {
        proof { assert(bytes@ =~= seq![27u8, 79u8, 83u8]); }
        return Some("f4");
    }
    if n == 5 && bytes[0] == 27 && bytes[1] == 91 && bytes[2] == 49 && bytes[3] == 49 && bytes[4] == 126 {
        proof { assert(bytes@ =~= seq![27u8, 91u8, 49u8, 49u8, 126u8]); }
        return Some("f1");
    }
    if n == 5 && bytes[0] == 27 && bytes[1] == 91 && bytes[2] == 49 && bytes[3] == 50 && bytes[4] == 126 {
        proof { assert(bytes@ =~= seq![27u8, 91u8, 49u8, 50u8, 126u8]); }
        return Some("f2");
    }
    if n == 5 && bytes[0] == 27 && bytes[1] == 91 && bytes[2] == 49 && bytes[3] == 51 && bytes[4] == 126 {
        proof { assert(bytes@ =~= seq![27u8, 91u8, 49u8, 51u8, 126u8]); }
        return Some("f3");
    }
    if n == 5 && bytes[0] == 27 && bytes[1] == 91 && bytes[2] == 49 && bytes[3] == 52 && bytes[4] == 126 {
        proof { assert(bytes@ =~= seq![27u8, 91u8, 49u8, 52u8, 126u8]); }
        return Some("f4");
    }
    if n == 4 && bytes[0] == 27 && bytes[1] == 91 && bytes[2] == 91 && bytes[3] == 65 {
        proof { assert(bytes@ =~= seq![27u8, 91u8, 91u8, 65u8]); }
        return Some("f1");
    }
    if n == 4 && bytes[0] == 27 && bytes[1] == 91 && bytes[2] == 91 && bytes[3] == 66 {
        proof { assert(bytes@ =~= seq![27u8, 91u8, 91u8, 66u8]); }
        return Some("f2");
    }
    if n == 4 && bytes[0] == 27 && bytes[1] == 91 && bytes[2] == 91 && bytes[3] == 67 {
        proof { assert(bytes@ =~= seq![27u8, 91u8, 91u8, 67u8]); }
        return Some("f3");
    }
    if n == 4 && bytes[0] == 27 && bytes[1] == 91 && bytes[2] == 91 && bytes[3] == 68 {
        proof { assert(bytes@ =~= seq![27u8, 91u8, 91u8, 68u8]); }
        return Some("f4");
    }
    if n == 4 && bytes[0] == 27 && bytes[1] == 91 && bytes[2] == 91 && bytes[3] == 69 {
        proof { assert(bytes@ =~= seq![27u8, 91u8, 91u8, 69u8]); }
        return Some("f5");
    }
    if n == 5 && bytes[0] == 27 && bytes[1] == 91 && bytes[2] == 49 && bytes[3] == 53 && bytes[4] == 126 {
        proof { assert(bytes@ =~= seq![27u8, 91u8, 49u8, 53u8, 126u8]); }
        return Some("f5");
    }
    if n == 5 && bytes[0] == 27 && bytes[1] == 91 && bytes[2] == 49 && bytes[3] == 55 && bytes[4] == 126 {
        proof { assert(bytes@ =~= seq![27u8, 91u8, 49u8, 55u8, 126u8]); }
        return Some("f6");
    }
    if n == 5 && bytes[0] == 27 && bytes[1] == 91 && bytes[2] == 49 && bytes[3] == 56 && bytes[4] == 126 {
        proof { assert(bytes@ =~= seq![27u8, 91u8, 49u8, 56u8, 126u8]); }
        return Some("f7");
    }
    if n == 5 && bytes[0] == 27 && bytes[1] == 91 && bytes[2] == 49 && bytes[3] == 57 && bytes[4] == 126 {
        proof { assert(bytes@ =~= seq![27u8, 91u8, 49u8, 57u8, 126u8]); }
        return Some("f8");
    }
    if n == 5 && bytes[0] == 27 && bytes[1] == 91 && bytes[2] == 50 && bytes[3] == 48 && bytes[4] == 126 {
        proof { assert(bytes@ =~= seq![27u8, 91u8, 50u8, 48u8, 126u8]); }
        return Some("f9");
    }
    if n == 5 && bytes[0] == 27 && bytes[1] == 91 && bytes[2] == 50 && bytes[3] == 49 && bytes[4] == 126 {
        proof { assert(bytes@ =~= seq![27u8, 91u8, 50u8, 49u8, 126u8]); }
        return Some("f10");
    }
    if n == 5 && bytes[0] == 27 && bytes[1] == 91 && bytes[2] == 50 && bytes[3] == 51 && bytes[4] == 126 {
        proof { assert(bytes@ =~= seq![27u8, 91u8, 50u8, 51u8, 126u8]); }
        return Some("f11");
    }
    if n == 5 && bytes[0] == 27 && bytes[1] == 91 && bytes[2] == 50 && bytes[3] == 52 && bytes[4] == 126 {
        proof { assert(bytes@ =~= seq![27u8, 91u8, 50u8, 52u8, 126u8]); }
        return Some("f12");
    }
    if n == 2 && bytes[0] == 27 && bytes[1] == 98 {
        proof { assert(bytes@ =~= seq![27u8, 98u8]); }
        return Some("alt+left");
    }
    if n == 2 && bytes[0] == 27 && bytes[1] == 102 {
        proof { assert(bytes@ =~= seq![27u8, 102u8]); }
        return Some("alt+right");
    }
    if n == 2 && bytes[0] == 27 && bytes[1] == 112 {
        proof { assert(bytes@ =~= seq![27u8, 112u8]); }
        return Some("alt+up");
    }
    if n == 2 && bytes[0] == 27 && bytes[1] == 110 {
        proof { assert(bytes@ =~= seq![27u8, 110u8]); }
        return Some("alt+down");
    }
    None
}

/// Check whether `bytes` is a legacy sequence of the key `key`.
pub fn matches_legacy_key(bytes: &[u8], key: &str) -> (r: bool)
    ensures
        r == (legacy_name(bytes@) == Some(key@)),
{
    match legacy_lookup(bytes) {
        Some(id) => str_eq(id, key),
        None => false,
    }
}

/// The keys that have shift and ctrl variants among the legacy sequences.
pub open spec fn has_legacy_modifier_variant(key: Seq<char>) -> bool {
    key == "up"@ || key == "down"@ || key == "right"@ || key == "left"@ || key == "clear"@ || key
        == "insert"@ || key == "delete"@ || key == "pageUp"@ || key == "pageDown"@ || key
        == "home"@ || key == "end"@
}

/// `bytes` is the legacy shift (modifier 1) or ctrl (modifier 4) variant of `key`.
pub open spec fn legacy_modifier_match(b: Seq<u8>, key: Seq<char>, modifier: u32) -> bool {
    if (modifier == MOD_SHIFT || modifier == MOD_CTRL) && has_legacy_modifier_variant(key) {
        legacy_name(b) == Some((if modifier == MOD_SHIFT {
            "shift+"@
        } else {
            "ctrl+"@
        }) + key)
    } else {
        false
    }
}

fn has_modifier_variant(key: &str) -> (r: bool)
    ensures
        r == has_legacy_modifier_variant(key@),
{
    str_eq(key, "up") || str_eq(key, "down") || str_eq(key, "right") || str_eq(key, "left")
        || str_eq(key, "clear") || str_eq(key, "insert") || str_eq(key, "delete") || str_eq(
        key,
        "pageUp",
    ) || str_eq(key, "pageDown") || str_eq(key, "home") || str_eq(key, "end")
}

/// Check whether `bytes` is a legacy shift or ctrl variant of `key`.
pub fn matches_legacy_modifier_sequence(bytes: &[u8], key: &str, modifier: u32) -> (r: bool)
    ensures
        r == legacy_modifier_match(bytes@, key@, modifier),
{
    if (modifier == MOD_SHIFT || modifier == MOD_CTRL) && has_modifier_variant(key) {
        let expected = if modifier == MOD_SHIFT {
            concat("shift+", key)
        } else {
            concat("ctrl+", key)
        };
        matches_legacy_key(bytes, expected.as_str())
    } else {
        false
    }
}

} // verus!
