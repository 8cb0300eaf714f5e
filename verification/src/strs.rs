//! Character-level string helpers.

use vstd::prelude::*;
use vstd::string::*;
use vstd::utf8::*;

verus! {

/// `String::push` appends one character.
pub assume_specification[ String::push ](s: &mut String, ch: char)
    ensures
        final(s)@ == old(s)@.push(ch),
;

/// The characters of `s`.
pub fn chars_of(s: &str) -> (v: Vec<char>)
    ensures
        v@ == s@,
{
    let n = s.unicode_len();
    let mut v: Vec<char> = Vec::new();
    let mut i: usize = 0;
    while i < n
        invariant
            n == s@.len(),
            i <= n,
            v@ == s@.take(i as int),
        decreases n - i,
    {
        v.push(s.get_char(i));
        i = i + 1;
        assert(v@ =~= s@.take(i as int));
    }
    assert(s@.take(n as int) =~= s@);
    v
}

/// A string holding the characters `v[a..b]`.
pub fn string_from_range(v: &[char], a: usize, b: usize) -> (s: String)
    requires
        a <= b <= v@.len(),
    ensures
        s@ == v@.subrange(a as int, b as int),
{
    let mut s = String::new();
    let mut i = a;
    while i < b
        invariant
            a <= i <= b <= v@.len(),
            s@ == v@.subrange(a as int, i as int),
        decreases b - i,
    {
        s.push(v[i]);
        i = i + 1;
        assert(s@ =~= v@.subrange(a as int, i as int));
    }
    s
}

/// A string holding the characters of `v`.
pub fn string_from_chars(v: &[char]) -> (s: String)
    ensures
        s@ == v@,
{
    let s = string_from_range(v, 0, v.len());
    assert(v@.subrange(0, v@.len() as int) =~= v@);
    s
}

/// `a` followed by `b`.
pub fn concat(a: &str, b: &str) -> (s: String)
    ensures
        s@ == a@ + b@,
{
    let mut s = String::from_str(a);
    s.append(b);
    s
}

/// Character-wise equality of two strings.
pub fn str_eq(a: &str, b: &str) -> (r: bool)
    ensures
        r == (a@ == b@),
{
    let va = chars_of(a);
    let vb = chars_of(b);
    if va.len() != vb.len() {
        return false;
    }
    let mut i: usize = 0;
    while i < va.len()
        invariant
            va@ == a@,
            vb@ == b@,
            va@.len() == vb@.len(),
            i <= va@.len(),
            forall|j: int| 0 <= j < i ==> va@[j] == vb@[j],
        decreases va@.len() - i,
    {
        if va[i] != vb[i] {
            return false;
        }
        i = i + 1;
    }
    assert(a@ =~= b@);
    true
}


/// UTF-8 length in bytes of a character sequence.
pub open spec fn byte_len(s: Seq<char>) -> int {
    encode_utf8(s).len() as int
}

/// Encoding distributes over concatenation.
pub proof fn lemma_encode_concat(a: Seq<char>, b: Seq<char>)
    ensures
        encode_utf8(a + b) == encode_utf8(a) + encode_utf8(b),
    decreases a.len(),
{
    if a.len() == 0 {
        assert(a + b =~= b);
        assert(encode_utf8(a) =~= Seq::<u8>::empty());
        assert(encode_utf8(a) + encode_utf8(b) =~= encode_utf8(b));
    } else {
        lemma_encode_concat(a.drop_first(), b);
        assert((a + b).drop_first() =~= a.drop_first() + b);
        assert((a + b)[0] == a[0]);
        assert(encode_utf8(a + b) =~= encode_scalar(a[0] as u32) + encode_utf8(a.drop_first() + b));
        assert(encode_utf8(a) =~= encode_scalar(a[0] as u32) + encode_utf8(a.drop_first()));
    }
}

/// The end of the encoding of `a` is a character boundary of the encoding of `a + b`.
pub proof fn lemma_boundary_concat(a: Seq<char>, b: Seq<char>)
    ensures
        is_char_boundary(encode_utf8(a + b), encode_utf8(a).len() as int),
    decreases a.len(),
{
    broadcast use encode_utf8_valid_utf8;

    if a.len() == 0 {
        assert(encode_utf8(a).len() == 0);
    } else {
        let ab = a + b;
        let bytes = encode_utf8(ab);
        encode_utf8_first_scalar(ab);
        assert(ab.drop_first() =~= a.drop_first() + b);
        assert(ab[0] == a[0]);
        let k = encode_scalar(a[0] as u32).len() as int;
        assert(bytes =~= encode_scalar(ab[0] as u32) + encode_utf8(ab.drop_first()));
        assert(pop_first_scalar(bytes) =~= encode_utf8(a.drop_first() + b));
        lemma_boundary_concat(a.drop_first(), b);
        assert(encode_utf8(a) =~= encode_scalar(a[0] as u32) + encode_utf8(a.drop_first()));
        assert(encode_utf8(a).len() > 0);
        assert(bytes.len() >= encode_utf8(a).len()) by {
            lemma_encode_concat(a, b);
        }
    }
}

/// Both ends of an encoding are character boundaries.
pub proof fn lemma_boundary_ends(s: Seq<char>)
    ensures
        is_char_boundary(encode_utf8(s), 0),
        is_char_boundary(encode_utf8(s), encode_utf8(s).len() as int),
{
    broadcast use encode_utf8_valid_utf8;

    is_char_boundary_start_end_of_seq(encode_utf8(s));
}

/// UTF-8 length of `s` in bytes.
pub fn byte_length(s: &str) -> (n: usize)
    ensures
        n == encode_utf8(s@).len(),
{
    s.as_bytes().len()
}

/// Split `s` at byte offset `k`, a character boundary.
pub fn split_at_byte(s: &str, k: usize) -> (r: (String, String))
    requires
        is_char_boundary(encode_utf8(s@), k as int),
    ensures
        encode_utf8(r.0@) == encode_utf8(s@).take(k as int),
        encode_utf8(r.1@) == encode_utf8(s@).skip(k as int),
        r.0@ + r.1@ == s@,
{
    let (a, b) = s.split_at(k);
    let ra = String::from_str(a);
    let rb = String::from_str(b);
    proof {
        broadcast use encode_utf8_valid_utf8;

        let bytes = encode_utf8(s@);
        assert(bytes.subrange(0, k as int) =~= bytes.take(k as int));
        assert(bytes.subrange(k as int, bytes.len() as int) =~= bytes.skip(k as int));
        lemma_encode_concat(a@, b@);
        assert(encode_utf8(a@) + encode_utf8(b@) =~= bytes);
        encode_utf8_decode_utf8(a@ + b@);
        encode_utf8_decode_utf8(s@);
    }
    (ra, rb)
}

/// A character boundary of `bytes` at or before the boundary `b` is one of
/// `bytes.take(b)`.
pub proof fn lemma_boundary_take(bytes: Seq<u8>, b: int, k: int)
    requires
        valid_utf8(bytes),
        is_char_boundary(bytes, b),
        is_char_boundary(bytes, k),
        0 <= k <= b <= bytes.len(),
    ensures
        valid_utf8(bytes.take(b)),
        is_char_boundary(bytes.take(b), k),
{
    assert(bytes.take(b) =~= bytes.subrange(0, b));
    valid_utf8_split(bytes, b);
    if k < b {
        assert(bytes.take(b)[k] == bytes[k]);
        is_char_boundary_iff_not_is_continuation_byte(bytes, k);
        is_char_boundary_iff_not_is_continuation_byte(bytes.take(b), k);
    } else {
        is_char_boundary_start_end_of_seq(bytes.take(b));
    }
}

/// A character boundary of `bytes` at or after the boundary `a` is one of
/// `bytes.skip(a)`.
pub proof fn lemma_boundary_skip(bytes: Seq<u8>, a: int, k: int)
    requires
        valid_utf8(bytes),
        is_char_boundary(bytes, a),
        is_char_boundary(bytes, k),
        0 <= a <= k <= bytes.len(),
    ensures
        valid_utf8(bytes.skip(a)),
        is_char_boundary(bytes.skip(a), k - a),
{
    assert(bytes.skip(a) =~= bytes.subrange(a, bytes.len() as int));
    valid_utf8_split(bytes, a);
    if k < bytes.len() {
        assert(bytes.skip(a)[k - a] == bytes[k]);
        is_char_boundary_iff_not_is_continuation_byte(bytes, k);
        is_char_boundary_iff_not_is_continuation_byte(bytes.skip(a), k - a);
    } else {
        is_char_boundary_start_end_of_seq(bytes.skip(a));
    }
}

/// A position holding an ASCII byte is a character boundary.
pub proof fn lemma_ascii_boundary(b: Seq<u8>, i: int)
    requires
        valid_utf8(b),
        0 <= i < b.len(),
        b[i] < 0x80,
    ensures
        is_char_boundary(b, i),
{
    is_char_boundary_iff_not_is_continuation_byte(b, i);
}

/// The text of `s` between byte offsets `a` and `b`, both character boundaries.
pub fn substring_bytes(s: &str, a: usize, b: usize) -> (r: String)
    requires
        a <= b <= encode_utf8(s@).len(),
        is_char_boundary(encode_utf8(s@), a as int),
        is_char_boundary(encode_utf8(s@), b as int),
    ensures
        encode_utf8(r@) == encode_utf8(s@).subrange(a as int, b as int),
{
    proof {
        broadcast use encode_utf8_valid_utf8;

        lemma_boundary_take(encode_utf8(s@), b as int, a as int);
    }
    let (head, _tail) = split_at_byte(s, b);
    let (_pre, mid) = split_at_byte(head.as_str(), a);
    assert(encode_utf8(s@).take(b as int).skip(a as int) =~= encode_utf8(s@).subrange(
        a as int,
        b as int,
    ));
    mid
}

/// `line` with the bytes from `a` to `b` replaced by `ins`.
pub open spec fn splice(line: Seq<u8>, a: int, b: int, ins: Seq<u8>) -> Seq<u8> {
    line.take(a) + ins + line.skip(b)
}

/// `s` with the text between byte offsets `a` and `b` replaced by `ins`.
pub fn splice_str(s: &str, a: usize, b: usize, ins: &str) -> (r: String)
    requires
        a <= b <= encode_utf8(s@).len(),
        is_char_boundary(encode_utf8(s@), a as int),
        is_char_boundary(encode_utf8(s@), b as int),
    ensures
        encode_utf8(r@) == splice(encode_utf8(s@), a as int, b as int, encode_utf8(ins@)),
{
    let (before, _x) = split_at_byte(s, a);
    let (_y, after) = split_at_byte(s, b);
    let mut r = before;
    r.append(ins);
    r.append(after.as_str());
    proof {
        lemma_encode_concat(before@, ins@);
        lemma_encode_concat(before@ + ins@, after@);
    }
    r
}

/// What a splice at character boundaries gives, as characters, and where its
/// character boundaries are.
pub proof fn lemma_splice_chars(s: Seq<char>, a: int, b: int, ins: Seq<char>, r: Seq<char>)
    requires
        0 <= a <= b <= encode_utf8(s).len(),
        is_char_boundary(encode_utf8(s), a),
        is_char_boundary(encode_utf8(s), b),
        encode_utf8(r) == splice(encode_utf8(s), a, b, encode_utf8(ins)),
    ensures
        r == decode_utf8(encode_utf8(s).take(a)) + ins + decode_utf8(encode_utf8(s).skip(b)),
        is_char_boundary(encode_utf8(r), a),
        is_char_boundary(encode_utf8(r), a + encode_utf8(ins).len()),
        encode_utf8(r).len() == encode_utf8(s).len() - (b - a) + encode_utf8(ins).len(),
{
    broadcast use encode_utf8_valid_utf8, encode_utf8_decode_utf8, decode_utf8_encode_utf8;

    let bytes = encode_utf8(s);
    lemma_boundary_take(bytes, b, a);
    lemma_boundary_skip(bytes, a, b);
    lemma_boundary_ends(s);
    valid_utf8_split(bytes, a);
    valid_utf8_split(bytes, b);
    assert(bytes.take(a) =~= bytes.subrange(0, a));
    assert(bytes.skip(b) =~= bytes.subrange(b, bytes.len() as int));
    let x = decode_utf8(bytes.take(a));
    let y = decode_utf8(bytes.skip(b));
    lemma_encode_concat(x, ins);
    lemma_encode_concat(x + ins, y);
    assert(encode_utf8(x + ins + y) =~= encode_utf8(r));
    assert(decode_utf8(encode_utf8(x + ins + y)) == x + ins + y);
    lemma_boundary_concat(x, ins + y);
    assert(x + (ins + y) =~= x + ins + y);
    lemma_boundary_concat(x + ins, y);
    lemma_encode_concat(x, ins);
}

/// `s` with the text between byte offsets `a` and `b` removed.
pub fn cut_str(s: &str, a: usize, b: usize) -> (r: String)
    requires
        a <= b <= encode_utf8(s@).len(),
        is_char_boundary(encode_utf8(s@), a as int),
        is_char_boundary(encode_utf8(s@), b as int),
    ensures
        encode_utf8(r@) == splice(encode_utf8(s@), a as int, b as int, Seq::empty()),
{
    let (before, _x) = split_at_byte(s, a);
    let (_y, after) = split_at_byte(s, b);
    let mut r = before;
    r.append(after.as_str());
    proof {
        lemma_encode_concat(before@, after@);
        assert(encode_utf8(s@).take(a as int) + Seq::<u8>::empty() =~= encode_utf8(s@).take(a as int));
    }
    r
}

/// The character for a decimal digit.
pub open spec fn digit_char(d: nat) -> char {
    if d == 0 {
        '0'
    } else if d == 1 {
        '1'
    } else if d == 2 {
        '2'
    } else if d == 3 {
        '3'
    } else if d == 4 {
        '4'
    } else if d == 5 {
        '5'
    } else if d == 6 {
        '6'
    } else if d == 7 {
        '7'
    } else if d == 8 {
        '8'
    } else {
        '9'
    }
}

/// The decimal digits of `n`, most significant first, without leading zeros.
pub open spec fn dec_digits(n: nat) -> Seq<char>
    decreases n,
{
    if n < 10 {
        seq![digit_char(n)]
    } else {
        dec_digits(n / 10) + seq![digit_char(n % 10)]
    }
}

fn digit_to_char(d: u64) -> (c: char)
    requires
        d < 10,
    ensures
        c == digit_char(d as nat),
{
    if d == 0 {
        '0'
    } else if d == 1 {
        '1'
    } else if d == 2 {
        '2'
    } else if d == 3 {
        '3'
    } else if d == 4 {
        '4'
    } else if d == 5 {
        '5'
    } else if d == 6 {
        '6'
    } else if d == 7 {
        '7'
    } else if d == 8 {
        '8'
    } else {
        '9'
    }
}

/// `n` written in decimal.
pub fn dec_string(n: u64) -> (s: String)
    ensures
        s@ == dec_digits(n as nat),
    decreases n,
{
    if n < 10 {
        let mut s = String::new();
        s.push(digit_to_char(n));
        proof {
            assert(s@ =~= seq![digit_char(n as nat)]);
        }
        s
    } else {
        let mut s = dec_string(n / 10);
        s.push(digit_to_char(n % 10));
        s
    }
}

/// `n` (up to 128 bits) written in decimal.
pub fn dec_string_wide(n: u128) -> (s: String)
    ensures
        s@ == dec_digits(n as nat),
    decreases n,
{
    if n < 10 {
        let mut s = String::new();
        s.push(digit_to_char(n as u64));
        proof {
            assert(s@ =~= seq![digit_char(n as nat)]);
        }
        s
    } else {
        let mut s = dec_string_wide(n / 10);
        s.push(digit_to_char((n % 10) as u64));
        s
    }
}

/// Index of the first occurrence of `n` in `h` at or after `i`.
pub open spec fn seq_find<T>(h: Seq<T>, n: Seq<T>, i: int) -> Option<int>
    decreases h.len() + 1 - i,
{
    if i < 0 || i + n.len() > h.len() {
        None
    } else if h.subrange(i, i + n.len()) == n {
        Some(i)
    } else {
        seq_find(h, n, i + 1)
    }
}

/// Whether the characters `n` occur in `h` at position `i`.
pub fn chars_at(h: &Vec<char>, n: &Vec<char>, i: usize) -> (r: bool)
    requires
        i + n@.len() <= h@.len(),
    ensures
        r == (h@.subrange(i as int, i + n@.len()) == n@),
{
    let hl = h.len();
    let mut k: usize = 0;
    while k < n.len()
        invariant
            hl == h@.len(),
            i + n@.len() <= h@.len(),
            k <= n@.len(),
            forall|j: int| 0 <= j < k ==> h@[i + j] == n@[j],
        decreases n@.len() - k,
    {
        if h[i + k] != n[k] {
            assert(h@.subrange(i as int, i + n@.len())[k as int] != n@[k as int]);
            return false;
        }
        k = k + 1;
    }
    assert(h@.subrange(i as int, i + n@.len()) =~= n@);
    true
}

/// A found occurrence lies within `h`, at or after `i`.
pub proof fn lemma_seq_find_some<T>(h: Seq<T>, n: Seq<T>, i: int)
    ensures
        seq_find(h, n, i) matches Some(e) ==> i <= e && e + n.len() <= h.len() && h.subrange(e, e + n.len()) == n,
    decreases h.len() + 1 - i,
{
    if i < 0 || i + n.len() > h.len() {
    } else if h.subrange(i, i + n.len()) == n {
    } else {
        lemma_seq_find_some(h, n, i + 1);
    }
}

/// Index of the first occurrence of `n` in `h`.
pub fn find_chars(h: &Vec<char>, n: &Vec<char>) -> (r: Option<usize>)
    ensures
        match r {
            Some(e) => seq_find(h@, n@, 0) == Some(e as int),
            None => seq_find(h@, n@, 0) is None,
        },
{
    let hl = h.len();
    let nl = n.len();
    if nl > hl {
        return None;
    }
    let mut i: usize = 0;
    while i <= hl - nl
        invariant
            hl == h@.len(),
            nl == n@.len(),
            nl <= hl,
            i <= hl - nl + 1,
            seq_find(h@, n@, 0) == seq_find(h@, n@, i as int),
        decreases hl - i,
    {
        if chars_at(h, n, i) {
            return Some(i);
        }
        if i == hl - nl {
            assert(seq_find(h@, n@, i + 1) is None);
            return None;
        }
        i = i + 1;
    }
    None
}

/// Whether the characters `n` occur in `h`.
pub fn contains_chars(h: &Vec<char>, n: &Vec<char>) -> (r: bool)
    ensures
        r == (seq_find(h@, n@, 0) is Some),
{
    find_chars(h, n).is_some()
}

/// `s` from position `i` on with every occurrence of the non-empty `p`
/// removed, scanning left to right as `str::replace` does.
pub open spec fn remove_from(s: Seq<char>, p: Seq<char>, i: int) -> Seq<char>
    decreases s.len() - i,
{
    if i < 0 || i >= s.len() {
        Seq::empty()
    } else if p.len() > 0 && i + p.len() <= s.len() && s.subrange(i, i + p.len()) == p {
        remove_from(s, p, i + p.len())
    } else {
        seq![s[i]] + remove_from(s, p, i + 1)
    }
}

pub proof fn lemma_remove_from_len(s: Seq<char>, p: Seq<char>, i: int)
    requires
        0 <= i,
    ensures
        remove_from(s, p, i).len() <= if i <= s.len() { s.len() - i } else { 0 },
    decreases s.len() - i,
{
    if i < 0 || i >= s.len() {
    } else if p.len() > 0 && i + p.len() <= s.len() && s.subrange(i, i + p.len()) == p {
        lemma_remove_from_len(s, p, i + p.len());
    } else {
        lemma_remove_from_len(s, p, i + 1);
    }
}

/// `s` with every occurrence of the non-empty `p` removed.
pub fn remove_all(s: &Vec<char>, p: &Vec<char>) -> (r: String)
    requires
        p@.len() > 0,
    ensures
        r@ == remove_from(s@, p@, 0),
{
    let n = s.len();
    let pl = p.len();
    let mut r = String::new();
    let mut i: usize = 0;
    while i < n
        invariant
            n == s@.len(),
            pl == p@.len(),
            pl > 0,
            i <= n,
            r@ + remove_from(s@, p@, i as int) == remove_from(s@, p@, 0),
        decreases n - i,
    {
        if pl <= n - i && chars_at(s, p, i) {
            i = i + pl;
        } else {
            let c = s[i];
            let ghost before = r@;
            r.push(c);
            proof {
                assert(r@ + remove_from(s@, p@, i + 1) =~= before + (seq![c] + remove_from(
                    s@,
                    p@,
                    i + 1,
                )));
            }
            i = i + 1;
        }
    }
    assert(r@ + remove_from(s@, p@, n as int) =~= r@);
    r
}

/// Concatenation of a sequence of strings.
pub open spec fn concat_all(gs: Seq<Seq<char>>) -> Seq<char>
    decreases gs.len(),
{
    if gs.len() == 0 {
        Seq::empty()
    } else {
        concat_all(gs.drop_last()) + gs.last()
    }
}

pub open spec fn string_views(v: Seq<String>) -> Seq<Seq<char>> {
    v.map_values(|s: String| s@)
}

/// Unicode `White_Space` characters, the ones `str::trim` removes.
pub open spec fn is_ws(c: char) -> bool {
    ('\u{9}' <= c && c <= '\u{d}') || c == ' ' || c == '\u{85}' || c == '\u{a0}' || c == '\u{1680}'
        || ('\u{2000}' <= c && c <= '\u{200a}') || c == '\u{2028}' || c == '\u{2029}' || c
        == '\u{202f}' || c == '\u{205f}' || c == '\u{3000}'
}

pub open spec fn trim_start(s: Seq<char>) -> Seq<char>
    decreases s.len(),
{
    if s.len() > 0 && is_ws(s[0]) {
        trim_start(s.drop_first())
    } else {
        s
    }
}

pub open spec fn trim_end(s: Seq<char>) -> Seq<char>
    decreases s.len(),
{
    if s.len() > 0 && is_ws(s.last()) {
        trim_end(s.drop_last())
    } else {
        s
    }
}

/// `s` without leading and trailing white space.
pub open spec fn trim(s: Seq<char>) -> Seq<char> {
    trim_end(trim_start(s))
}

pub fn is_whitespace_char(c: char) -> (r: bool)
    ensures
        r == is_ws(c),
{
    ('\u{9}' <= c && c <= '\u{d}') || c == ' ' || c == '\u{85}' || c == '\u{a0}' || c == '\u{1680}'
        || ('\u{2000}' <= c && c <= '\u{200a}') || c == '\u{2028}' || c == '\u{2029}' || c
        == '\u{202f}' || c == '\u{205f}' || c == '\u{3000}'
}

/// The bounds of `v[a..b]` without leading and trailing white space.
pub fn trim_bounds(v: &Vec<char>, a: usize, b: usize) -> (r: (usize, usize))
    requires
        a <= b <= v@.len(),
    ensures
        a <= r.0 <= r.1 <= b,
        v@.subrange(r.0 as int, r.1 as int) == trim(v@.subrange(a as int, b as int)),
{
    let mut lo = a;
    while lo < b && is_whitespace_char(v[lo])
        invariant
            a <= lo <= b <= v@.len(),
            trim_start(v@.subrange(a as int, b as int)) == trim_start(
                v@.subrange(lo as int, b as int),
            ),
        decreases b - lo,
    {
        assert(v@.subrange(lo as int, b as int).drop_first() =~= v@.subrange(lo + 1, b as int));
        lo = lo + 1;
    }
    let mut hi = b;
    while hi > lo && is_whitespace_char(v[hi - 1])
        invariant
            a <= lo <= hi <= b <= v@.len(),
            trim_start(v@.subrange(a as int, b as int)) == v@.subrange(lo as int, b as int),
            trim(v@.subrange(a as int, b as int)) == trim_end(v@.subrange(lo as int, hi as int)),
        decreases hi - lo,
    {
        assert(v@.subrange(lo as int, hi as int).drop_last() =~= v@.subrange(lo as int, hi - 1));
        hi = hi - 1;
    }
    (lo, hi)
}

/// `s` without leading white space.
pub fn trim_start_string(s: &str) -> (r: String)
    ensures
        r@ == trim_start(s@),
{
    let v = chars_of(s);
    let n = v.len();
    let mut lo: usize = 0;
    assert(v@.subrange(0, n as int) =~= s@);
    while lo < n && is_whitespace_char(v[lo])
        invariant
            n == v@.len(),
            v@ == s@,
            lo <= n,
            trim_start(s@) == trim_start(v@.subrange(lo as int, n as int)),
        decreases n - lo,
    {
        assert(v@.subrange(lo as int, n as int).drop_first() =~= v@.subrange(lo + 1, n as int));
        lo = lo + 1;
    }
    string_from_range(v.as_slice(), lo, n)
}

/// `s` without leading and trailing white space.
pub fn trim_string(s: &str) -> (r: String)
    ensures
        r@ == trim(s@),
{
    let v = chars_of(s);
    let (lo, hi) = trim_bounds(&v, 0, v.len());
    assert(v@.subrange(0, v@.len() as int) =~= s@);
    string_from_range(v.as_slice(), lo, hi)
}

/// Index of the first `c` in `s` at or after `i`.
pub open spec fn char_index_from(s: Seq<char>, c: char, i: int) -> Option<int>
    decreases s.len() - i,
{
    if i < 0 || i >= s.len() {
        None
    } else if s[i] == c {
        Some(i)
    } else {
        char_index_from(s, c, i + 1)
    }
}

pub proof fn lemma_char_index_from_range(s: Seq<char>, c: char, i: int)
    ensures
        char_index_from(s, c, i) matches Some(k) ==> i <= k < s.len() && s[k] == c,
    decreases s.len() - i,
{
    if 0 <= i < s.len() && s[i] != c {
        lemma_char_index_from_range(s, c, i + 1);
    }
}

/// `c` does not occur in `s` from `i` on.
pub proof fn lemma_char_index_none(s: Seq<char>, c: char, i: int)
    requires
        0 <= i,
        forall|k: int| i <= k < s.len() ==> s[k] != c,
    ensures
        char_index_from(s, c, i) is None,
    decreases s.len() - i,
{
    if i < s.len() {
        lemma_char_index_none(s, c, i + 1);
    }
}

/// The pieces of `s` between occurrences of `c` (as `str::split` gives them).
pub open spec fn split_on(s: Seq<char>, c: char) -> Seq<Seq<char>>
    decreases s.len(),
{
    match char_index_from(s, c, 0) {
        None => seq![s],
        Some(k) => {
            proof {
                lemma_char_index_from_range(s, c, 0);
            }
            seq![s.take(k)] + split_on(s.skip(k + 1), c)
        },
    }
}

pub proof fn lemma_split_on_nonempty(s: Seq<char>, c: char)
    ensures
        split_on(s, c).len() >= 1,
    decreases s.len(),
{
    lemma_char_index_from_range(s, c, 0);
    if let Some(k) = char_index_from(s, c, 0) {
        lemma_split_on_nonempty(s.skip(k + 1), c);
    }
}

/// A text without `c` splits into itself alone.
pub proof fn lemma_split_on_single(s: Seq<char>, c: char)
    requires
        split_on(s, c).len() == 1,
    ensures
        split_on(s, c)[0] == s,
{
    lemma_char_index_from_range(s, c, 0);
    if let Some(k) = char_index_from(s, c, 0) {
        lemma_split_on_nonempty(s.skip(k + 1), c);
    }
}

/// Split `v` on `c`.
pub fn split_chars(v: &Vec<char>, c: char) -> (r: Vec<String>)
    ensures
        string_views(r@) == split_on(v@, c),
{
    let n = v.len();
    let mut parts: Vec<String> = Vec::new();
    let mut pos: usize = 0;
    assert(v@.skip(0) =~= v@);
    loop
        invariant_except_break
            split_on(v@, c) == string_views(parts@) + split_on(v@.skip(pos as int), c),
        invariant
            n == v@.len(),
            pos <= n,
        ensures
            split_on(v@, c) == string_views(parts@),
        decreases n - pos,
    {
        let ghost rest = v@.skip(pos as int);
        let mut j = pos;
        while j < n && v[j] != c
            invariant
                pos <= j <= n == v@.len(),
                rest == v@.skip(pos as int),
                char_index_from(rest, c, 0) == char_index_from(rest, c, (j - pos) as int),
            decreases n - j,
        {
            j = j + 1;
        }
        let part = string_from_range(v.as_slice(), pos, j);
        let ghost old_parts = parts@;
        parts.push(part);
        proof {
            lemma_char_index_from_range(rest, c, 0);
            assert(string_views(parts@) =~= string_views(old_parts).push(part@));
            if j < n {
                assert(char_index_from(rest, c, 0) == Some((j - pos) as int));
                assert(rest.take((j - pos) as int) =~= part@);
                assert(rest.skip((j - pos) + 1) =~= v@.skip(j + 1));
                assert(string_views(old_parts) + (seq![part@] + split_on(v@.skip(j + 1), c))
                    =~= string_views(parts@) + split_on(v@.skip(j + 1), c));
            } else {
                assert(char_index_from(rest, c, 0) is None);
                assert(part@ =~= rest);
                assert(string_views(old_parts) + seq![part@] =~= string_views(parts@));
            }
        }
        if j >= n {
            break;
        }
        pos = j + 1;
    }
    parts
}

/// `\r\n` and lone `\r` replaced by `\n`.
pub open spec fn normalize_newlines(s: Seq<char>) -> Seq<char>
    decreases s.len(),
{
    if s.len() == 0 {
        Seq::empty()
    } else if s[0] == '\r' && s.len() >= 2 && s[1] == '\n' {
        seq!['\n'] + normalize_newlines(s.skip(2))
    } else if s[0] == '\r' {
        seq!['\n'] + normalize_newlines(s.skip(1))
    } else {
        seq![s[0]] + normalize_newlines(s.skip(1))
    }
}

/// A text without carriage returns is its own normalization.
pub proof fn lemma_normalize_no_cr(s: Seq<char>)
    requires
        forall|k: int| 0 <= k < s.len() ==> s[k] != '\r',
    ensures
        normalize_newlines(s) == s,
    decreases s.len(),
{
    if s.len() > 0 {
        let r = s.skip(1);
        assert forall|k: int| 0 <= k < r.len() implies r[k] != '\r' by {
            assert(r[k] == s[k + 1]);
        }
        lemma_normalize_no_cr(r);
        assert(seq![s[0]] + r =~= s);
    }
}

/// The characters of `s` with newlines normalized.
pub fn normalized_chars(s: &str) -> (r: Vec<char>)
    ensures
        r@ == normalize_newlines(s@),
{
    let v = chars_of(s);
    let n = v.len();
    let mut out: Vec<char> = Vec::new();
    let mut i: usize = 0;
    assert(v@.skip(0) =~= v@);
    while i < n
        invariant
            n == v@.len(),
            v@ == s@,
            i <= n,
            normalize_newlines(s@) == out@ + normalize_newlines(v@.skip(i as int)),
        decreases n - i,
    {
        let ghost rest = v@.skip(i as int);
        if v[i] == '\r' && i + 1 < n && v[i + 1] == '\n' {
            out.push('\n');
            assert(rest.skip(2) =~= v@.skip(i + 2));
            i = i + 2;
        } else if v[i] == '\r' {
            out.push('\n');
            assert(rest.skip(1) =~= v@.skip(i + 1));
            i = i + 1;
        } else {
            out.push(v[i]);
            assert(rest.skip(1) =~= v@.skip(i + 1));
            i = i + 1;
        }
        assert(normalize_newlines(s@) =~= out@ + normalize_newlines(v@.skip(i as int)));
    }
    assert(v@.skip(n as int) =~= Seq::<char>::empty());
    assert(out@ + Seq::<char>::empty() =~= out@);
    out
}

/// The concatenation of a non-empty sequence starts with its first element.
pub proof fn lemma_concat_all_first(s: Seq<Seq<char>>)
    requires
        s.len() > 0,
    ensures
        concat_all(s) == s[0] + concat_all(s.drop_first()),
    decreases s.len(),
{
    if s.len() == 1 {
        assert(s.drop_last() =~= Seq::<Seq<char>>::empty());
        assert(s.drop_first() =~= Seq::<Seq<char>>::empty());
        assert(Seq::<char>::empty() + s[0] =~= s[0] + Seq::<char>::empty());
    } else {
        lemma_concat_all_first(s.drop_last());
        assert(s.drop_first().drop_last() =~= s.drop_last().drop_first());
        assert(s.drop_first().last() == s.last());
        assert(s.drop_last()[0] == s[0]);
        assert((s[0] + concat_all(s.drop_last().drop_first())) + s.last() =~= s[0] + (concat_all(
            s.drop_first().drop_last(),
        ) + s.drop_first().last()));
    }
}

/// The concatenation of a sequence of strings splits where the sequence does.
pub proof fn lemma_concat_all_split(gs: Seq<Seq<char>>, k: int)
    requires
        0 <= k <= gs.len(),
    ensures
        concat_all(gs) == concat_all(gs.take(k)) + concat_all(gs.skip(k)),
    decreases gs.len() - k,
{
    if k == gs.len() {
        assert(gs.take(k) =~= gs);
        assert(gs.skip(k) =~= Seq::<Seq<char>>::empty());
        assert(concat_all(gs) + Seq::<char>::empty() =~= concat_all(gs));
    } else {
        lemma_concat_all_split(gs, k + 1);
        assert(gs.take(k + 1).drop_last() =~= gs.take(k));
        assert(gs.take(k + 1).last() == gs[k]);
        let rest = gs.skip(k);
        lemma_concat_all_first(rest);
        assert(rest.drop_first() =~= gs.skip(k + 1));
        assert(rest[0] == gs[k]);
        assert((concat_all(gs.take(k)) + gs[k]) + concat_all(gs.skip(k + 1)) =~= concat_all(
            gs.take(k),
        ) + (gs[k] + concat_all(gs.skip(k + 1))));
    }
}

/// Whether `c` is alphabetic or numeric in Unicode.
pub uninterp spec fn alphanumeric(c: char) -> bool;

/// Calls `char::is_alphanumeric`: whether `c` has the Unicode `Alphabetic`
/// or `Numeric` property.
#[verifier::external_body]
pub(crate) fn is_alphanumeric_char(c: char) -> (r: bool)
    ensures
        r == alphanumeric(c),
{
    c.is_alphanumeric()
}

/// Calls `char::from_u32`: the character with code point `cp`, or `None`
/// for a surrogate or a value past `0x10FFFF`.
#[verifier::external_body]
pub(crate) fn char_from_code(cp: u32) -> (r: Option<char>)
    ensures
        (cp <= 0x10FFFF && !(0xD800 <= cp <= 0xDFFF)) ==> r == Some(cp as char),
        !(cp <= 0x10FFFF && !(0xD800 <= cp <= 0xDFFF)) ==> r is None,
{
    char::from_u32(cp)
}

} // verus!
