//! Pasted text: cleaning it, the markers that stand for large pastes, and
//! expanding those markers back into the pasted text.

use vstd::prelude::*;

use crate::strs::{
    char_index_from, chars_of, concat, dec_digits, dec_string, dec_string_wide, digit_char, find_chars, lemma_seq_find_some,
    normalize_newlines, normalized_chars, seq_find, string_from_range,
};

verus! {

/// Pasted text made fit for the editor: line endings normalized, each tab
/// four spaces, other control characters (but line feeds) dropped.
pub open spec fn clean_paste(s: Seq<char>) -> Seq<char> {
    keep_printable(normalize_newlines(s))
}

/// `s` with each tab four spaces and control characters other than line
/// feeds dropped.
pub open spec fn keep_printable(s: Seq<char>) -> Seq<char>
    decreases s.len(),
{
    if s.len() == 0 {
        Seq::empty()
    } else {
        let c = s.last();
        keep_printable(s.drop_last()) + if c == '\t' {
            seq![' ', ' ', ' ', ' ']
        } else if c == '\n' || c >= ' ' {
            seq![c]
        } else {
            Seq::empty()
        }
    }
}

/// Clean pasted text.
pub fn clean_paste_text(text: &str) -> (r: String)
    ensures
        r@ == clean_paste(text@),
{
    let v = normalized_chars(text);
    let mut r = String::new();
    let mut i: usize = 0;
    while i < v.len()
        invariant
            i <= v@.len(),
            r@ == keep_printable(v@.take(i as int)),
        decreases v@.len() - i,
    {
        let c = v[i];
        proof {
            assert(v@.take(i + 1).drop_last() =~= v@.take(i as int));
            assert(v@.take(i + 1).last() == c);
        }
        let ghost before = r@;
        if c == '\t' {
            r.push(' ');
            r.push(' ');
            r.push(' ');
            r.push(' ');
            assert(r@ =~= before + seq![' ', ' ', ' ', ' ']);
        } else if c == '\n' || c >= ' ' {
            r.push(c);
            assert(r@ =~= before + seq![c]);
        } else {
            assert(r@ =~= before + Seq::<char>::empty());
        }
        i = i + 1;
    }
    assert(v@.take(v@.len() as int) =~= v@);
    r
}

/// The start of the marker of paste `id`: `[paste #` and the id.
pub open spec fn paste_pattern(id: u64) -> Seq<char> {
    seq!['[', 'p', 'a', 's', 't', 'e', ' ', '#'] + dec_digits(id as nat)
}

/// `t` with the markers of one paste (from `pat` to the next `]`) replaced
/// by `content`, first one first, at most `fuel` times (`None` when more
/// would be needed).
pub open spec fn expand_one(t: Seq<char>, pat: Seq<char>, content: Seq<char>, fuel: nat) -> Option<Seq<char>>
    decreases fuel,
{
    match seq_find(t, pat, 0) {
        None => Some(t),
        Some(s) => match char_index_from(t, ']', s) {
            None => Some(t),
            Some(e) => if fuel == 0 {
                None
            } else {
                expand_one(t.take(s) + content + t.skip(e + 1), pat, content, (fuel - 1) as nat)
            },
        },
    }
}

/// `t` with the markers of each paste, in order, replaced by its content.
pub open spec fn expand_all(t: Seq<char>, pastes: Seq<(u64, Seq<char>)>, fuel: nat) -> Option<Seq<char>>
    decreases pastes.len(),
{
    if pastes.len() == 0 {
        Some(t)
    } else {
        match expand_all(t, pastes.drop_last(), fuel) {
            None => None,
            Some(t1) => expand_one(t1, paste_pattern(pastes.last().0), pastes.last().1, fuel),
        }
    }
}

/// The expansion of `t` ends: some fuel suffices.
pub open spec fn expansion_ends(t: Seq<char>, pastes: Seq<(u64, Seq<char>)>) -> bool {
    exists|f: nat| #[trigger] expand_all(t, pastes, f) is Some
}

proof fn lemma_expand_one_more_fuel(t: Seq<char>, pat: Seq<char>, content: Seq<char>, f: nat, g: nat)
    requires
        f <= g,
        expand_one(t, pat, content, f) is Some,
    ensures
        expand_one(t, pat, content, g) == expand_one(t, pat, content, f),
    decreases f,
{
    match seq_find(t, pat, 0) {
        None => {},
        Some(s) => match char_index_from(t, ']', s) {
            None => {},
            Some(e) => {
                lemma_expand_one_more_fuel(t.take(s) + content + t.skip(e + 1), pat, content, (f - 1) as nat, (g - 1) as nat);
            },
        },
    }
}

proof fn lemma_expand_all_more_fuel(t: Seq<char>, pastes: Seq<(u64, Seq<char>)>, f: nat, g: nat)
    requires
        f <= g,
        expand_all(t, pastes, f) is Some,
    ensures
        expand_all(t, pastes, g) == expand_all(t, pastes, f),
    decreases pastes.len(),
{
    if pastes.len() > 0 {
        lemma_expand_all_more_fuel(t, pastes.drop_last(), f, g);
        let t1 = expand_all(t, pastes.drop_last(), f).unwrap();
        lemma_expand_one_more_fuel(t1, paste_pattern(pastes.last().0), pastes.last().1, f, g);
    }
}

/// Any two fuels that suffice give the same expansion.
pub proof fn lemma_expansion_unique(t: Seq<char>, pastes: Seq<(u64, Seq<char>)>, f: nat, g: nat)
    requires
        expand_all(t, pastes, f) is Some,
        expand_all(t, pastes, g) is Some,
    ensures
        expand_all(t, pastes, f) == expand_all(t, pastes, g),
{
    if f <= g {
        lemma_expand_all_more_fuel(t, pastes, f, g);
    } else {
        lemma_expand_all_more_fuel(t, pastes, g, f);
    }
}

/// The expansion of `t`, when it ends.
pub open spec fn expansion(t: Seq<char>, pastes: Seq<(u64, Seq<char>)>) -> Seq<char> {
    expand_all(t, pastes, choose|f: nat| #[trigger] expand_all(t, pastes, f) is Some).unwrap()
}

proof fn lemma_prefix_ends(t: Seq<char>, pastes: Seq<(u64, Seq<char>)>, f: nat, i: int)
    requires
        0 <= i <= pastes.len(),
        expand_all(t, pastes, f) is Some,
    ensures
        expand_all(t, pastes.take(i), f) is Some,
    decreases pastes.len() - i,
{
    if i < pastes.len() {
        assert(pastes.take(i + 1).drop_last() =~= pastes.take(i));
        lemma_prefix_ends(t, pastes, f, i + 1);
    } else {
        assert(pastes.take(i) =~= pastes);
    }
}

/// The index of the first `]` at or after `from`.
fn find_close(v: &Vec<char>, from: usize) -> (r: Option<usize>)
    requires
        from <= v@.len(),
    ensures
        match r {
            Some(e) => char_index_from(v@, ']', from as int) == Some(e as int),
            None => char_index_from(v@, ']', from as int) is None,
        },
{
    let mut i = from;
    while i < v.len()
        invariant
            from <= i <= v@.len(),
            char_index_from(v@, ']', from as int) == char_index_from(v@, ']', i as int),
        decreases v@.len() - i,
    {
        if v[i] == ']' {
            return Some(i);
        }
        i = i + 1;
    }
    None
}

/// Replace the markers of one paste in `text`.
fn expand_paste(text: &str, id: u64, content: &str, Ghost(fuel): Ghost<nat>) -> (r: String)
    requires
        expand_one(text@, paste_pattern(id), content@, fuel) is Some,
    ensures
        expand_one(text@, paste_pattern(id), content@, fuel) == Some(r@),
{
    let mut pat_s = String::from_str("[paste #");
    let digits = dec_string(id);
    pat_s.append(digits.as_str());
    proof {
        reveal_strlit("[paste #");
        assert(pat_s@ =~= paste_pattern(id));
    }
    let pat = chars_of(pat_s.as_str());
    let ghost target = expand_one(text@, paste_pattern(id), content@, fuel).unwrap();
    let mut cur = String::from_str(text);
    let ghost mut g: nat = fuel;
    loop
        invariant
            pat@ == paste_pattern(id),
            expand_one(text@, paste_pattern(id), content@, fuel) == Some(target),
            expand_one(cur@, paste_pattern(id), content@, g) == Some(target),
        decreases g,
    {
        let v = chars_of(cur.as_str());
        let vl = v.len();
        match find_chars(&v, &pat) {
            None => {
                assert(expand_one(cur@, paste_pattern(id), content@, g) == Some(cur@));
                return cur;
            },
            Some(s) => {
                proof {
                    lemma_seq_find_some(v@, pat@, 0);
                }
                match find_close(&v, s) {
                    None => {
                        assert(expand_one(cur@, paste_pattern(id), content@, g) == Some(cur@));
                        return cur;
                    },
                    Some(e) => {
                        proof {
                            crate::strs::lemma_char_index_from_range(v@, ']', s as int);
                        }
                        let before = string_from_range(v.as_slice(), 0, s);
                        let after = string_from_range(v.as_slice(), e + 1, vl);
                        let mut next = concat(before.as_str(), content);
                        next.append(after.as_str());
                        proof {
                            assert(next@ =~= cur@.take(s as int) + content@ + cur@.skip(e + 1));
                            g = (g - 1) as nat;
                        }
                        cur = next;
                    },
                }
            },
        }
    }
}

/// `text` with the markers of each paste replaced by its content.
pub fn expand_pastes(text: String, pastes: &Vec<(u64, String)>) -> (r: String)
    requires
        expansion_ends(text@, pastes@.map_values(|p: (u64, String)| (p.0, p.1@))),
    ensures
        r@ == expansion(text@, pastes@.map_values(|p: (u64, String)| (p.0, p.1@))),
{
    let ghost pv = pastes@.map_values(|p: (u64, String)| (p.0, p.1@));
    let ghost f = choose|f: nat| #[trigger] expand_all(text@, pv, f) is Some;
    let ghost t0 = text@;
    let mut cur = text;
    let mut i: usize = 0;
    proof {
        assert(pv.take(0) =~= Seq::<(u64, Seq<char>)>::empty());
    }
    while i < pastes.len()
        invariant
            pv == pastes@.map_values(|p: (u64, String)| (p.0, p.1@)),
            i <= pastes@.len(),
            expand_all(t0, pv, f) is Some,
            expand_all(t0, pv.take(i as int), f) == Some(cur@),
        decreases pastes@.len() - i,
    {
        proof {
            lemma_prefix_ends(t0, pv, f, i + 1);
            assert(pv.take(i + 1).drop_last() =~= pv.take(i as int));
            assert(pv.take(i + 1).last() == pv[i as int]);
        }
        let id = pastes[i].0;
        cur = expand_paste(cur.as_str(), id, pastes[i].1.as_str(), Ghost(f));
        i = i + 1;
    }
    proof {
        assert(pv.take(pastes@.len() as int) =~= pv);
    }
    cur
}

/// The marker that stands for paste `id` of `lines` lines (more than ten)
/// or else `bytes` bytes.
pub open spec fn paste_marker(id: u64, lines: nat, bytes: nat) -> Seq<char> {
    if lines > 10 {
        paste_pattern(id) + seq![' ', '+'] + dec_digits(lines) + seq![' ', 'l', 'i', 'n', 'e', 's', ']']
    } else {
        paste_pattern(id) + seq![' '] + dec_digits(bytes) + seq![' ', 'c', 'h', 'a', 'r', 's', ']']
    }
}

/// The marker for a paste.
pub fn make_paste_marker(id: u64, lines: u128, bytes: usize) -> (r: String)
    ensures
        r@ == paste_marker(id, lines as nat, bytes as nat),
{
    let mut r = String::from_str("[paste #");
    r.append(dec_string(id).as_str());
    proof {
        reveal_strlit("[paste #");
        reveal_strlit(" +");
        reveal_strlit(" lines]");
        reveal_strlit(" ");
        reveal_strlit(" chars]");
    }
    if lines > 10 {
        r.append(" +");
        r.append(dec_string_wide(lines).as_str());
        r.append(" lines]");
        assert(r@ =~= paste_marker(id, lines as nat, bytes as nat));
    } else {
        r.append(" ");
        r.append(dec_string(bytes as u64).as_str());
        r.append(" chars]");
        assert(r@ =~= paste_marker(id, lines as nat, bytes as nat));
    }
    r
}

/// The number of line feeds in `s`.
pub open spec fn newline_count(s: Seq<char>) -> nat
    decreases s.len(),
{
    if s.len() == 0 {
        0
    } else {
        newline_count(s.drop_last()) + if s.last() == '\n' {
            1nat
        } else {
            0nat
        }
    }
}

/// Count the line feeds in `text`.
pub fn count_newlines(text: &str) -> (r: usize)
    ensures
        r == newline_count(text@),
{
    let v = chars_of(text);
    let mut n: usize = 0;
    let mut i: usize = 0;
    while i < v.len()
        invariant
            v@ == text@,
            i <= v@.len(),
            n == newline_count(v@.take(i as int)),
            n <= i,
        decreases v@.len() - i,
    {
        proof {
            assert(v@.take(i + 1).drop_last() =~= v@.take(i as int));
        }
        if v[i] == '\n' {
            n = n + 1;
        }
        i = i + 1;
    }
    assert(v@.take(v@.len() as int) =~= v@);
    n
}

proof fn lemma_digits_are_digits(n: nat)
    ensures
        forall|k: int| 0 <= k < dec_digits(n).len() ==> '0' <= #[trigger] dec_digits(n)[k] <= '9',
    decreases n,
{
    if n >= 10 {
        lemma_digits_are_digits(n / 10);
        let d = dec_digits(n);
        let h = dec_digits(n / 10);
        assert(d == h + seq![digit_char(n % 10)]);
        assert forall|k: int| 0 <= k < d.len() implies '0' <= #[trigger] d[k] <= '9' by {
            if k < h.len() {
                assert(d[k] == h[k]);
            }
        }
    }
}

/// A paste marker starts with `[`, ends with `]` (its only `]`), and holds
/// no line break or carriage return.
pub proof fn lemma_marker_plain(id: u64, lines: nat, bytes: nat)
    ensures
        ({
            let m = paste_marker(id, lines, bytes);
            &&& m.len() > 0
            &&& m[0] == '['
            &&& m.last() == ']'
            &&& forall|k: int| 0 <= k < m.len() ==> #[trigger] m[k] != '\n' && m[k] != '\r'
            &&& forall|k: int| 0 <= k < m.len() - 1 ==> #[trigger] m[k] != ']'
        }),
{
    let m = paste_marker(id, lines, bytes);
    let pat = paste_pattern(id);
    lemma_digits_are_digits(id as nat);
    lemma_digits_are_digits(lines);
    lemma_digits_are_digits(bytes);
    assert forall|j: int| 0 <= j < m.len() implies #[trigger] m[j] != '\n' && m[j] != '\r' && (j < m.len() - 1
        ==> m[j] != ']') by {
        let dd = dec_digits(id as nat);
        if j >= 8 && j < 8 + dd.len() {
            assert(m[j] == dd[j - 8]);
        }
        if lines > 10 {
            let dl = dec_digits(lines);
            if j >= pat.len() + 2 && j < pat.len() + 2 + dl.len() {
                assert(m[j] == dl[j - pat.len() - 2]);
            }
        } else {
            let db = dec_digits(bytes);
            if j >= pat.len() + 1 && j < pat.len() + 1 + db.len() {
                assert(m[j] == db[j - pat.len() - 1]);
            }
        }
    }
}

proof fn lemma_first_char_at(s: Seq<char>, c: char, i: int, e: int)
    requires
        0 <= i <= e < s.len(),
        s[e] == c,
        forall|j: int| i <= j < e ==> s[j] != c,
    ensures
        char_index_from(s, c, i) == Some(e),
    decreases e - i,
{
    if i < e {
        lemma_first_char_at(s, c, i + 1, e);
    }
}

/// A paste marker alone expands back to the pasted text: expanding the
/// marker of paste `id` with that paste gives its text, when the text holds
/// no marker of the same paste.
pub proof fn law_marker_expands_to_paste(id: u64, lines: nat, bytes: nat, t: Seq<char>)
    requires
        seq_find(t, paste_pattern(id), 0) is None,
    ensures
        expansion_ends(paste_marker(id, lines, bytes), seq![(id, t)]),
        expansion(paste_marker(id, lines, bytes), seq![(id, t)]) == t,
{
    let m = paste_marker(id, lines, bytes);
    let pat = paste_pattern(id);
    let pastes = seq![(id, t)];
    lemma_marker_plain(id, lines, bytes);
    assert(m.subrange(0, pat.len() as int) =~= pat);
    assert(seq_find(m, pat, 0) == Some(0int));
    let e = m.len() - 1;
    lemma_first_char_at(m, ']', 0, e);
    assert(m.take(0) + t + m.skip(e + 1) =~= t);
    assert(expand_one(t, pat, t, 0) == Some(t));
    assert(expand_one(m, pat, t, 1) == Some(t));
    assert(pastes.drop_last() =~= Seq::<(u64, Seq<char>)>::empty());
    assert(expand_all(m, pastes.drop_last(), 1) == Some(m));
    assert(pastes.last() == (id, t));
    assert(expand_all(m, pastes, 1) == Some(t));
    let f = choose|f: nat| #[trigger] expand_all(m, pastes, f) is Some;
    lemma_expansion_unique(m, pastes, f, 1);
}

} // verus!
