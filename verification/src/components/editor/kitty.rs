//! Printable text in Kitty keyboard-protocol sequences, and the keys that
//! insert a line break.

use vstd::prelude::*;

use vstd::utf8::*;

use crate::keys::match_key::{is_key, key_is};
use crate::keys::parse::valid_scalar;
use crate::strs::{char_from_code, chars_of, split_chars, split_on, str_eq, string_from_range, string_views};

verus! {

pub open spec fn digit_value(c: char) -> nat {
    (c as u32 - '0' as u32) as nat
}

pub open spec fn all_digits(s: Seq<char>) -> bool {
    forall|i: int| 0 <= i < s.len() ==> '0' <= #[trigger] s[i] <= '9'
}

/// The number that the decimal digits `s` write.
pub open spec fn decimal_value(s: Seq<char>) -> nat
    decreases s.len(),
{
    if s.len() == 0 {
        0
    } else {
        decimal_value(s.drop_last()) * 10 + digit_value(s.last())
    }
}

/// What `str::parse::<u32>` gives: an optional `+` then at least one
/// decimal digit, the value fitting in 32 bits.
pub open spec fn parse_u32(s: Seq<char>) -> Option<u32> {
    let d = if s.len() > 0 && s[0] == '+' {
        s.drop_first()
    } else {
        s
    };
    if d.len() > 0 && all_digits(d) && decimal_value(d) <= u32::MAX {
        Some(decimal_value(d) as u32)
    } else {
        None
    }
}

/// Parse a decimal `u32`.
pub fn parse_u32_str(s: &str) -> (r: Option<u32>)
    ensures
        r == parse_u32(s@),
{
    let v = chars_of(s);
    let start: usize = if v.len() > 0 && v[0] == '+' {
        1
    } else {
        0
    };
    let ghost d = if s@.len() > 0 && s@[0] == '+' {
        s@.drop_first()
    } else {
        s@
    };
    assert(d =~= v@.skip(start as int));
    if start >= v.len() {
        return None;
    }
    let mut acc: u64 = 0;
    let mut i = start;
    while i < v.len()
        invariant
            v@ == s@,
            start <= i <= v@.len(),
            d == v@.skip(start as int),
            d == (if s@.len() > 0 && s@[0] == '+' { s@.drop_first() } else { s@ }),
            all_digits(v@.subrange(start as int, i as int)),
            acc == decimal_value(v@.subrange(start as int, i as int)),
            acc <= u32::MAX,
        decreases v@.len() - i,
    {
        let c = v[i];
        if !('0' <= c && c <= '9') {
            assert(d[i - start] == c);
            assert(!all_digits(d));
            assert(parse_u32(s@) is None);
            return None;
        }
        proof {
            assert(v@.subrange(start as int, i + 1).drop_last() =~= v@.subrange(start as int, i as int));
            assert(v@.subrange(start as int, i + 1).last() == c);
        }
        let dv = c as u64 - '0' as u64;
        assert(dv == digit_value(c));
        acc = acc * 10 + dv;
        assert(acc == decimal_value(v@.subrange(start as int, i + 1)));
        assert(all_digits(v@.subrange(start as int, i + 1)));
        if acc > u32::MAX as u64 {
            proof {
                assert(v@.subrange(start as int, i + 1) =~= d.take(i + 1 - start));
                lemma_decimal_prefix_le(d, i + 1 - start);
            }
            assert(parse_u32(s@) is None);
            return None;
        }
        i = i + 1;
    }
    proof {
        assert(v@.subrange(start as int, v@.len() as int) =~= d);
    }
    Some(acc as u32)
}

/// A prefix of a digit string is worth no more than the whole.
proof fn lemma_decimal_prefix_le(d: Seq<char>, k: int)
    requires
        0 <= k <= d.len(),
        all_digits(d.take(k)),
        all_digits(d) || true,
    ensures
        all_digits(d) ==> decimal_value(d.take(k)) <= decimal_value(d),
    decreases d.len() - k,
{
    if k < d.len() && all_digits(d) {
        assert(d.take(k + 1).drop_last() =~= d.take(k));
        lemma_decimal_prefix_le(d, k + 1);
        assert(d.take(k + 1).last() == d[k]);
    } else if k == d.len() {
        assert(d.take(k) =~= d);
    }
}

/// Code points of the text field's pieces: non-empty ones that parse, at
/// least 32.
pub open spec fn text_codepoints(ps: Seq<Seq<char>>) -> Seq<u32>
    decreases ps.len(),
{
    if ps.len() == 0 {
        Seq::empty()
    } else {
        let p = ps.last();
        text_codepoints(ps.drop_last()) + match parse_u32(p) {
            Some(v) => if p.len() > 0 && v >= 32 {
                seq![v]
            } else {
                Seq::empty()
            },
            None => Seq::empty(),
        }
    }
}

/// The characters of the code points that are Unicode scalar values.
pub open spec fn scalar_chars(cps: Seq<u32>) -> Seq<char>
    decreases cps.len(),
{
    if cps.len() == 0 {
        Seq::empty()
    } else {
        scalar_chars(cps.drop_last()) + if valid_scalar(cps.last()) {
            seq![cps.last() as char]
        } else {
            Seq::empty()
        }
    }
}

/// The text a Kitty `CSI codepoint[:shifted[:base]][;modifiers[:event][;text]] u`
/// sequence types: `None` for another sequence, one without a code point,
/// one with Alt or Ctrl, or a private-use or control code point; the text
/// field's characters when it has any; else the shifted key with Shift,
/// the code point without.
pub open spec fn kitty_printable(d: Seq<char>) -> Option<Seq<char>> {
    if d.len() < 4 || d[0] != '\x1b' || d[1] != '[' || d.last() != 'u' {
        None
    } else {
        let parts = split_on(d.subrange(2, d.len() - 1), ';');
        let cp_parts = split_on(parts[0], ':');
        match parse_u32(cp_parts[0]) {
            None => None,
            Some(codepoint) => {
                let shifted = if cp_parts.len() > 1 && cp_parts[1].len() > 0 {
                    parse_u32(cp_parts[1])
                } else {
                    None
                };
                let mod_part = if parts.len() > 1 {
                    split_on(parts[1], ':')
                } else {
                    seq![seq!['1']]
                };
                let mod_value = match parse_u32(mod_part[0]) {
                    Some(v) => v,
                    None => 1u32,
                };
                let modifier = if mod_value >= 1 {
                    (mod_value - 1) as u32
                } else {
                    0u32
                };
                if modifier & 6u32 != 0 {
                    None
                } else {
                    let field = if parts.len() > 2 {
                        Some(parts[2])
                    } else if parts.len() > 1 && split_on(parts[1], ':').len() > 1 {
                        Some(parts[1])
                    } else {
                        None
                    };
                    let text = match field {
                        Some(tf) => if tf.len() > 0 && text_codepoints(split_on(tf, ':')).len() > 0
                            && scalar_chars(text_codepoints(split_on(tf, ':'))).len() > 0 {
                            Some(scalar_chars(text_codepoints(split_on(tf, ':'))))
                        } else {
                            None
                        },
                        None => None,
                    };
                    match text {
                        Some(t) => Some(t),
                        None => {
                            let effective = if modifier & 1u32 != 0 {
                                match shifted {
                                    Some(v) => v,
                                    None => codepoint,
                                }
                            } else {
                                codepoint
                            };
                            if (0xe000 <= effective && effective <= 0xf8ff) || effective < 32 || !valid_scalar(effective) {
                                None
                            } else {
                                Some(seq![effective as char])
                            }
                        },
                    }
                }
            },
        }
    }
}

/// The characters of the text field `tf`.
fn text_field_chars(tf: &str) -> (r: (usize, String))
    ensures
        r.0 == text_codepoints(split_on(tf@, ':')).len(),
        r.1@ == scalar_chars(text_codepoints(split_on(tf@, ':'))),
{
    let tv = chars_of(tf);
    let ps = split_chars(&tv, ':');
    let ghost pv = string_views(ps@);
    let mut count: usize = 0;
    let mut out = String::new();
    let mut i: usize = 0;
    while i < ps.len()
        invariant
            pv == string_views(ps@),
            pv == split_on(tf@, ':'),
            i <= ps@.len(),
            count == text_codepoints(pv.take(i as int)).len(),
            count <= i,
            out@ == scalar_chars(text_codepoints(pv.take(i as int))),
        decreases ps@.len() - i,
    {
        let p = &ps[i];
        proof {
            assert(pv.take(i + 1).drop_last() =~= pv.take(i as int));
            assert(pv.take(i + 1).last() == p@);
        }
        let pl = p.unicode_len();
        match parse_u32_str(p.as_str()) {
            Some(v) => {
                if pl > 0 && v >= 32 {
                    let ghost before = text_codepoints(pv.take(i as int));
                    proof {
                        assert(text_codepoints(pv.take(i + 1)) =~= before.push(v));
                        assert(before.push(v).drop_last() =~= before);
                    }
                    count = count + 1;
                    match char_from_code(v) {
                        Some(c) => {
                            out.push(c);
                        },
                        None => {},
                    }
                    proof {
                        let sc = scalar_chars(before);
                        if valid_scalar(v) {
                            assert(out@ =~= sc + seq![v as char]);
                        } else {
                            assert(out@ =~= sc + Seq::<char>::empty());
                        }
                    }
                } else {
                    proof {
                        assert(text_codepoints(pv.take(i + 1)) =~= text_codepoints(pv.take(i as int)));
                    }
                }
            },
            None => {
                proof {
                    assert(text_codepoints(pv.take(i + 1)) =~= text_codepoints(pv.take(i as int)));
                }
            },
        }
        i = i + 1;
    }
    proof {
        assert(pv.take(ps@.len() as int) =~= pv);
    }
    (count, out)
}

/// The text a Kitty keyboard-protocol sequence types, if it is printable.
pub fn decode_kitty_printable(data: &str) -> (r: Option<String>)
    ensures
        match r {
            Some(s) => kitty_printable(data@) == Some(s@),
            None => kitty_printable(data@) is None,
        },
{
    let v = chars_of(data);
    let n = v.len();
    if n < 4 || v[0] != '\x1b' || v[1] != '[' || v[n - 1] != 'u' {
        return None;
    }
    let inner = string_from_range(v.as_slice(), 2, n - 1);
    let iv = chars_of(inner.as_str());
    let parts = split_chars(&iv, ';');
    let ghost pv = string_views(parts@);
    assert(iv@ == data@.subrange(2, data@.len() - 1));
    assert(data@.last() == data@[n - 1]);
    assert(pv == split_on(data@.subrange(2, data@.len() - 1), ';'));
    assert(parts@[0]@ == pv[0]);
    proof {
        crate::strs::lemma_split_on_nonempty(iv@, ';');
    }
    let p0 = chars_of(parts[0].as_str());
    let cp_parts = split_chars(&p0, ':');
    proof {
        crate::strs::lemma_split_on_nonempty(p0@, ':');
    }
    let codepoint = match parse_u32_str(cp_parts[0].as_str()) {
        Some(c) => c,
        None => return None,
    };
    let shifted: Option<u32> = if cp_parts.len() > 1 && cp_parts[1].unicode_len() > 0 {
        parse_u32_str(cp_parts[1].as_str())
    } else {
        None
    };
    let mod_value: u32 = if parts.len() > 1 {
        let p1 = chars_of(parts[1].as_str());
        let mp = split_chars(&p1, ':');
        proof {
            crate::strs::lemma_split_on_nonempty(p1@, ':');
        }
        match parse_u32_str(mp[0].as_str()) {
            Some(m) => m,
            None => 1,
        }
    } else {
        proof {
            reveal_strlit("1");
            assert("1"@ =~= seq!['1']);
        }
        match parse_u32_str("1") {
            Some(m) => m,
            None => 1,
        }
    };
    let modifier: u32 = if mod_value >= 1 {
        mod_value - 1
    } else {
        0
    };
    if modifier & 6 != 0 {
        return None;
    }
    let field: Option<usize> = if parts.len() > 2 {
        Some(2)
    } else if parts.len() > 1 {
        let p1 = chars_of(parts[1].as_str());
        let mp = split_chars(&p1, ':');
        if mp.len() > 1 {
            Some(1)
        } else {
            None
        }
    } else {
        None
    };
    match field {
        Some(k) => {
            let tf = &parts[k];
            if tf.unicode_len() > 0 {
                let (count, text) = text_field_chars(tf.as_str());
                if count > 0 && text.unicode_len() > 0 {
                    return Some(text);
                }
            }
        },
        None => {},
    }
    let effective = if modifier & 1 != 0 {
        match shifted {
            Some(s) => s,
            None => codepoint,
        }
    } else {
        codepoint
    };
    if (0xe000 <= effective && effective <= 0xf8ff) || effective < 32 {
        return None;
    }
    match char_from_code(effective) {
        Some(c) => {
            let mut s = String::new();
            s.push(c);
            Some(s)
        },
        None => None,
    }
}

/// Keys that insert a line break: Shift+Enter, Ctrl+Enter (Kitty and
/// xterm forms), Option+Enter and Shift+Enter in legacy forms, and a line
/// feed followed by more input.
pub open spec fn new_line_key(d: Seq<char>) -> bool {
    let b = encode_utf8(d);
    ||| is_key(b, "shift+enter"@, false)
    ||| d == "\x1b[13;5u"@
    ||| d == "\x1b[27;5;13~"@
    ||| d == "\x1b\r"@
    ||| d == "\x1b[13;2~"@
    ||| (b.len() > 1 && b[0] == 10)
}

/// Whether `data` is a key that inserts a line break.
pub fn is_new_line_key(data: &str) -> (r: bool)
    ensures
        r == new_line_key(data@),
{
    let b = data.as_bytes();
    if key_is(b, "shift+enter", false) {
        return true;
    }
    if str_eq(data, "\x1b[13;5u") || str_eq(data, "\x1b[27;5;13~") {
        return true;
    }
    if str_eq(data, "\x1b\r") {
        return true;
    }
    if str_eq(data, "\x1b[13;2~") {
        return true;
    }
    b.len() > 1 && b[0] == 10
}

} // verus!
