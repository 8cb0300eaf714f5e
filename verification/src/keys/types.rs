//! Key codes, modifier bits and digit-run parsing.

use vstd::prelude::*;

verus! {

// Internal sentinel codes for the CSI 1;mod <letter> forms.
pub const ARROW_UP: i32 = -1;
pub const ARROW_DOWN: i32 = -2;
pub const ARROW_RIGHT: i32 = -3;
pub const ARROW_LEFT: i32 = -4;

pub const FUNC_DELETE: i32 = -10;
pub const FUNC_INSERT: i32 = -11;
pub const FUNC_PAGE_UP: i32 = -12;
pub const FUNC_PAGE_DOWN: i32 = -13;
pub const FUNC_HOME: i32 = -14;
pub const FUNC_END: i32 = -15;
pub const FUNC_CLEAR: i32 = -16;

pub const FUNC_F1: i32 = -20;
pub const FUNC_F2: i32 = -21;
pub const FUNC_F3: i32 = -22;
pub const FUNC_F4: i32 = -23;
pub const FUNC_F5: i32 = -24;
pub const FUNC_F6: i32 = -25;
pub const FUNC_F7: i32 = -26;
pub const FUNC_F8: i32 = -27;
pub const FUNC_F9: i32 = -28;
pub const FUNC_F10: i32 = -29;
pub const FUNC_F11: i32 = -30;
pub const FUNC_F12: i32 = -31;

pub const CP_ESCAPE: i32 = 27;
pub const CP_TAB: i32 = 9;
pub const CP_ENTER: i32 = 13;
pub const CP_SPACE: i32 = 32;
pub const CP_BACKSPACE: i32 = 127;
pub const CP_KP_ENTER: i32 = 57414;
pub const CP_KP_0: i32 = 57399;
pub const CP_KP_1: i32 = 57400;
pub const CP_KP_2: i32 = 57401;
pub const CP_KP_3: i32 = 57402;
pub const CP_KP_4: i32 = 57403;
pub const CP_KP_5: i32 = 57404;
pub const CP_KP_6: i32 = 57405;
pub const CP_KP_7: i32 = 57406;
pub const CP_KP_8: i32 = 57407;
pub const CP_KP_9: i32 = 57408;
pub const CP_KP_DECIMAL: i32 = 57409;

pub const MOD_SHIFT: u32 = 1;
pub const MOD_ALT: u32 = 2;
pub const MOD_CTRL: u32 = 4;

/// Caps lock (64) and num lock (128) bits, ignored when matching.
pub const LOCK_MASK: u32 = 192;

/// Parsed Kitty keyboard protocol sequence.
pub struct ParsedKittySequence {
    pub codepoint: i32,
    pub shifted_key: Option<i32>,
    pub base_layout_key: Option<i32>,
    pub text_codepoint: Option<i32>,
    pub modifier: u32,
    pub event_type: Option<u32>,
}

/// Parsed Kitty keyboard protocol result (public API).
pub struct ParsedKittyResult {
    pub codepoint: i32,
    pub shifted_key: Option<i32>,
    pub base_layout_key: Option<i32>,
    pub modifier: u32,
    pub event_type: Option<u32>,
}

/// The functional key that a keypad navigation key stands for.
pub open spec fn keypad_nav(cp: i32) -> Option<i32> {
    if cp == CP_KP_0 {
        Some(FUNC_INSERT)
    } else if cp == CP_KP_1 {
        Some(FUNC_END)
    } else if cp == CP_KP_2 {
        Some(ARROW_DOWN)
    } else if cp == CP_KP_3 {
        Some(FUNC_PAGE_DOWN)
    } else if cp == CP_KP_4 {
        Some(ARROW_LEFT)
    } else if cp == CP_KP_5 {
        Some(FUNC_CLEAR)
    } else if cp == CP_KP_6 {
        Some(ARROW_RIGHT)
    } else if cp == CP_KP_7 {
        Some(FUNC_HOME)
    } else if cp == CP_KP_8 {
        Some(ARROW_UP)
    } else if cp == CP_KP_9 {
        Some(FUNC_PAGE_UP)
    } else if cp == CP_KP_DECIMAL {
        Some(FUNC_DELETE)
    } else {
        None
    }
}

/// Map keypad navigation keys to their functional equivalents.
pub fn map_keypad_nav(codepoint: i32) -> (r: Option<i32>)
    ensures
        r == keypad_nav(codepoint),
{
    match codepoint {
        CP_KP_0 => Some(FUNC_INSERT),
        CP_KP_1 => Some(FUNC_END),
        CP_KP_2 => Some(ARROW_DOWN),
        CP_KP_3 => Some(FUNC_PAGE_DOWN),
        CP_KP_4 => Some(ARROW_LEFT),
        CP_KP_5 => Some(FUNC_CLEAR),
        CP_KP_6 => Some(ARROW_RIGHT),
        CP_KP_7 => Some(FUNC_HOME),
        CP_KP_8 => Some(ARROW_UP),
        CP_KP_9 => Some(FUNC_PAGE_UP),
        CP_KP_DECIMAL => Some(FUNC_DELETE),
        _ => None,
    }
}

/// The symbol keys of a US layout: `` ` " - = [ ] \ ; ' , . / ! @ # $ % ^ & * ( ) _ + | ~ { } : < > ? ``.
pub open spec fn symbol_key(cp: i32) -> bool {
    cp == 96 || cp == 34 || cp == 45 || cp == 61 || cp == 91 || cp == 93 || cp == 92 || cp == 59
        || cp == 39 || cp == 44 || cp == 46 || cp == 47 || cp == 33 || cp == 64 || cp == 35 || cp
        == 36 || cp == 37 || cp == 94 || cp == 38 || cp == 42 || cp == 40 || cp == 41 || cp == 95
        || cp == 43 || cp == 124 || cp == 126 || cp == 123 || cp == 125 || cp == 58 || cp == 60
        || cp == 62 || cp == 63
}

/// Check if a codepoint corresponds to a known symbol key.
pub fn is_symbol_key(cp: i32) -> (r: bool)
    ensures
        r == symbol_key(cp),
{
    match cp {
        96 | 34 | 45 | 61 | 91 | 93 | 92 | 59 | 39 | 44 | 46 | 47 | 33 | 64 | 35 | 36 | 37 | 94
        | 38 | 42 | 40 | 41 | 95 | 43 | 124 | 126 | 123 | 125 | 58 | 60 | 62 | 63 => true,
        _ => false,
    }
}

pub open spec fn is_digit(b: u8) -> bool {
    48 <= b <= 57
}

/// End of the run of digits of `b` that starts at `i`, within `..end`.
pub open spec fn digit_run_end(b: Seq<u8>, i: int, end: int) -> int
    decreases end - i,
{
    if 0 <= i < end && i < b.len() && is_digit(b[i]) {
        digit_run_end(b, i + 1, end)
    } else {
        i
    }
}

/// Decimal value of the digits `b[i..j]`.
pub open spec fn decimal_value(b: Seq<u8>, i: int, j: int) -> nat
    decreases j - i,
{
    if j <= i {
        0
    } else {
        decimal_value(b, i, j - 1) * 10 + (b[j - 1] - 48) as nat
    }
}

/// A run of digits at `i`, as its `u32` value and the index after it;
/// `None` when there is no digit at `i` or the value does not fit.
pub open spec fn digits_at(b: Seq<u8>, i: int, end: int) -> Option<(u32, int)> {
    if i >= end || !is_digit(b[i]) {
        None
    } else {
        let j = digit_run_end(b, i, end);
        if decimal_value(b, i, j) <= u32::MAX {
            Some((decimal_value(b, i, j) as u32, j))
        } else {
            None
        }
    }
}

/// Like [`digits_at`], but a missing run is no error.
pub open spec fn optional_digits_at(b: Seq<u8>, i: int, end: int) -> (Option<u32>, int) {
    if i >= end || !is_digit(b[i]) {
        (None, i)
    } else {
        match digits_at(b, i, end) {
            Some((v, j)) => (Some(v), j),
            None => (None, i),
        }
    }
}

pub proof fn lemma_digit_run_end(b: Seq<u8>, i: int, end: int)
    requires
        0 <= i,
        end <= b.len(),
    ensures
        i <= digit_run_end(b, i, end),
        i < end ==> digit_run_end(b, i, end) <= end,
        forall|k: int| i <= k < digit_run_end(b, i, end) ==> #[trigger] is_digit(b[k]),
        digit_run_end(b, i, end) < end ==> !is_digit(b[digit_run_end(b, i, end)]),
    decreases end - i,
{
    if i < end && is_digit(b[i]) {
        lemma_digit_run_end(b, i + 1, end);
    }
}

pub proof fn lemma_decimal_monotone(b: Seq<u8>, i: int, k: int, j: int)
    requires
        i <= k <= j,
        forall|m: int| i <= m < j ==> #[trigger] is_digit(b[m]),
    ensures
        decimal_value(b, i, k) <= decimal_value(b, i, j),
    decreases j - k,
{
    if k < j {
        lemma_decimal_monotone(b, i, k, j - 1);
    }
}

pub proof fn lemma_digits_at_range(b: Seq<u8>, i: int, end: int)
    requires
        0 <= i,
        end <= b.len(),
    ensures
        digits_at(b, i, end) matches Some((v, j)) ==> i < j <= end,
{
    if i < end && is_digit(b[i]) {
        lemma_digit_run_end(b, i, end);
        lemma_digit_run_end(b, i + 1, end);
    }
}

/// The digits read at `i`: the longest run of ASCII digits from `i`
/// (ending at `end` or at the first other byte), as its value and the index
/// after it, when the run is not empty and its value fits in a `u32`.
pub proof fn law_digits_at_longest_run(b: Seq<u8>, i: int, end: int)
    requires
        0 <= i <= end <= b.len(),
    ensures
        ({
            let j = digit_run_end(b, i, end);
            &&& i <= j <= end
            &&& forall|k: int| i <= k < j ==> #[trigger] is_digit(b[k])
            &&& j < end ==> !is_digit(b[j])
            &&& digits_at(b, i, end) == if j > i && decimal_value(b, i, j) <= u32::MAX {
                Some((decimal_value(b, i, j) as u32, j))
            } else {
                None::<(u32, int)>
            }
        }),
{
    lemma_digit_run_end(b, i, end);
}

/// Parse a run of decimal digits at `idx`, stopping before `end`.
pub fn parse_digits(bytes: &[u8], idx: usize, end: usize) -> (r: Option<(u32, usize)>)
    requires
        end <= bytes@.len(),
    ensures
        match r {
            Some((v, j)) => digits_at(bytes@, idx as int, end as int) == Some((v, j as int)),
            None => digits_at(bytes@, idx as int, end as int) is None,
        },
{
    if idx >= end || !(48 <= bytes[idx] && bytes[idx] <= 57) {
        return None;
    }
    proof {
        lemma_digit_run_end(bytes@, idx as int, end as int);
    }
    let ghost j = digit_run_end(bytes@, idx as int, end as int);
    let mut value: u32 = 0;
    let mut i = idx;
    while i < end && 48 <= bytes[i] && bytes[i] <= 57
        invariant
            end <= bytes@.len(),
            idx < end,
            j == digit_run_end(bytes@, idx as int, end as int),
            idx <= i <= j <= end,
            forall|k: int| idx <= k < j ==> #[trigger] is_digit(bytes@[k]),
            j < end ==> !is_digit(bytes@[j]),
            value == decimal_value(bytes@, idx as int, i as int),
        decreases end - i,
    {
        let d = (bytes[i] - 48) as u32;
        proof {
            lemma_decimal_monotone(bytes@, idx as int, i + 1, j);
        }
        if value > 429496729 || (value == 429496729 && d > 5) {
            assert(decimal_value(bytes@, idx as int, i + 1) > u32::MAX);
            return None;
        }
        value = value * 10 + d;
        i = i + 1;
    }
    assert(i == j) by {
        if i < j {
            assert(is_digit(bytes@[i as int]));
        }
    }
    Some((value, i))
}

/// Parse an optional run of digits at `idx`.
pub fn parse_optional_digits(bytes: &[u8], idx: usize, end: usize) -> (r: (Option<u32>, usize))
    requires
        end <= bytes@.len(),
    ensures
        (r.0, r.1 as int) == optional_digits_at(bytes@, idx as int, end as int),
{
    if idx >= end || !(48 <= bytes[idx] && bytes[idx] <= 57) {
        return (None, idx);
    }
    match parse_digits(bytes, idx, end) {
        Some((v, i)) => (Some(v), i),
        None => (None, idx),
    }
}

} // verus!
