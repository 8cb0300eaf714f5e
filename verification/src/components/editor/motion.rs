//! Cursor movement for the editor: grapheme-aware word motion, line
//! start/end and jumping to a character.

use vstd::prelude::*;
use vstd::utf8::*;

use super::layout::{is_punctuation_grapheme, is_whitespace_grapheme, punct_grapheme, ws_grapheme};
use super::editing::{first_grapheme_at, first_grapheme_len, last_grapheme_before, last_grapheme_len};
use super::layout::{cursor_visual_line_from, find_current_visual_line, visual_line_has_cursor};
use super::state::{col_at_boundary, cursor_ok, lb, structural, EditorState, VisualLine};
use crate::bytes::find_from;
use crate::graphemes::{grapheme_strings, graphemes};
use crate::strs::{
    byte_length, byte_len, concat_all, lemma_boundary_concat, lemma_concat_all_split,
    lemma_encode_concat, split_at_byte, string_views,
};

verus! {

/// White space for word motion: a grapheme starting with a space, tab or
/// line break, and with `wide` also one starting with a vertical tab or
/// form feed.
pub open spec fn ws_class(g: Seq<char>, wide: bool) -> bool {
    ws_grapheme(g) || (wide && g.len() > 0 && (g[0] == '\x0b' || g[0] == '\x0c'))
}

/// Whether `g` is white space for word motion.
pub fn is_ws_class(g: &str, wide: bool) -> (r: bool)
    ensures
        r == ws_class(g@, wide),
{
    if is_whitespace_grapheme(g) {
        return true;
    }
    if !wide {
        return false;
    }
    let v = crate::strs::chars_of(g);
    v.len() > 0 && (v[0] == '\x0b' || v[0] == '\x0c')
}

/// Grapheme classes used by word motion: 0 white space, 1 punctuation, 2 word.
pub open spec fn in_class(kind: int, g: Seq<char>, wide: bool) -> bool {
    if kind == 0 {
        ws_class(g, wide)
    } else if kind == 1 {
        punct_grapheme(g)
    } else {
        !ws_class(g, wide) && !punct_grapheme(g)
    }
}

/// Start of the run of class `kind` that ends at `i`.
pub open spec fn back_while(gs: Seq<Seq<char>>, i: int, kind: int, wide: bool) -> int
    decreases i,
{
    if 0 < i <= gs.len() && in_class(kind, gs[i - 1], wide) {
        back_while(gs, i - 1, kind, wide)
    } else {
        i
    }
}

/// End of the run of class `kind` that starts at `i`.
pub open spec fn fwd_while(gs: Seq<Seq<char>>, i: int, kind: int, wide: bool) -> int
    decreases gs.len() - i,
{
    if 0 <= i < gs.len() && in_class(kind, gs[i], wide) {
        fwd_while(gs, i + 1, kind, wide)
    } else {
        i
    }
}

/// Where a backward word move lands, in graphemes: before trailing white
/// space and then before a punctuation run or a word run.
pub open spec fn word_start_before(gs: Seq<Seq<char>>, wide: bool) -> int {
    let i1 = back_while(gs, gs.len() as int, 0, wide);
    if i1 > 0 {
        if punct_grapheme(gs[i1 - 1]) {
            back_while(gs, i1, 1, wide)
        } else {
            back_while(gs, i1, 2, wide)
        }
    } else {
        i1
    }
}

/// Where a forward word move lands, in graphemes: past leading white
/// space and then past a punctuation run or a word run.
pub open spec fn word_end_after(gs: Seq<Seq<char>>, wide: bool) -> int {
    let i1 = fwd_while(gs, 0, 0, wide);
    if i1 < gs.len() {
        if punct_grapheme(gs[i1]) {
            fwd_while(gs, i1, 1, wide)
        } else {
            fwd_while(gs, i1, 2, wide)
        }
    } else {
        i1
    }
}

proof fn lemma_back_while_range(gs: Seq<Seq<char>>, i: int, kind: int, wide: bool)
    requires
        0 <= i <= gs.len(),
    ensures
        0 <= back_while(gs, i, kind, wide) <= i,
    decreases i,
{
    if 0 < i && in_class(kind, gs[i - 1], wide) {
        lemma_back_while_range(gs, i - 1, kind, wide);
    }
}

proof fn lemma_fwd_while_range(gs: Seq<Seq<char>>, i: int, kind: int, wide: bool)
    requires
        0 <= i <= gs.len(),
    ensures
        i <= fwd_while(gs, i, kind, wide) <= gs.len(),
    decreases gs.len() - i,
{
    if i < gs.len() && in_class(kind, gs[i], wide) {
        lemma_fwd_while_range(gs, i + 1, kind, wide);
    }
}

pub proof fn lemma_word_start_range(gs: Seq<Seq<char>>, wide: bool)
    ensures
        0 <= word_start_before(gs, wide) <= gs.len(),
{
    lemma_back_while_range(gs, gs.len() as int, 0, wide);
    let i1 = back_while(gs, gs.len() as int, 0, wide);
    if i1 > 0 {
        lemma_back_while_range(gs, i1, 1, wide);
        lemma_back_while_range(gs, i1, 2, wide);
    }
}

pub proof fn lemma_word_end_range(gs: Seq<Seq<char>>, wide: bool)
    ensures
        0 <= word_end_after(gs, wide) <= gs.len(),
{
    lemma_fwd_while_range(gs, 0, 0, wide);
    let i1 = fwd_while(gs, 0, 0, wide);
    if i1 < gs.len() {
        lemma_fwd_while_range(gs, i1, 1, wide);
        lemma_fwd_while_range(gs, i1, 2, wide);
    }
}

/// The byte offset after the first `k` graphemes is a character boundary of
/// `concat_all(gs) + tail`.
pub proof fn lemma_grapheme_prefix_boundary(gs: Seq<Seq<char>>, k: int, tail: Seq<char>)
    requires
        0 <= k <= gs.len(),
    ensures
        is_char_boundary(
            encode_utf8(concat_all(gs) + tail),
            byte_len(concat_all(gs.take(k))),
        ),
        byte_len(concat_all(gs.take(k))) <= byte_len(concat_all(gs)),
{
    lemma_concat_all_split(gs, k);
    let a = concat_all(gs.take(k));
    let b = concat_all(gs.skip(k));
    assert(concat_all(gs) + tail =~= a + (b + tail));
    lemma_boundary_concat(a, b + tail);
    lemma_encode_concat(a, b);
}

/// Byte offset, within a line, of the start of the previous word before
/// byte offset `col`.
pub open spec fn word_back_col(line: Seq<u8>, col: int, wide: bool) -> int {
    let gs = graphemes(decode_utf8(line.take(col)));
    byte_len(concat_all(gs.take(word_start_before(gs, wide))))
}

/// Byte offset, within a line, of the end of the next word after byte
/// offset `col`.
pub open spec fn word_fwd_col(line: Seq<u8>, col: int, wide: bool) -> int {
    let gs = graphemes(decode_utf8(line.skip(col)));
    col + byte_len(concat_all(gs.take(word_end_after(gs, wide))))
}

/// The cursor state other than the text.
pub open spec fn same_text(a: &EditorState, b: &EditorState) -> bool {
    a.lines@ == b.lines@
}

/// The state after setting the cursor column to `col`.
pub open spec fn after_set_cursor_col(o: EditorState, n: EditorState, op: Option<usize>, np: Option<usize>, col: usize) -> bool {
    &&& n.lines@ == o.lines@
    &&& n.cursor_line == o.cursor_line
    &&& n.cursor_col == col
    &&& np is None
}

/// Set the cursor column and clear the preferred visual column.
pub fn set_cursor_col(state: &mut EditorState, col: usize, preferred_visual_col: &mut Option<usize>)
    ensures
        after_set_cursor_col(*old(state), *final(state), *old(preferred_visual_col), *final(preferred_visual_col), col),
{
    state.cursor_col = col;
    *preferred_visual_col = None;
}

/// The state after moving to the start of the line.
pub open spec fn after_move_to_line_start(o: EditorState, n: EditorState, op: Option<usize>, np: Option<usize>) -> bool {
    &&& n.lines@ == o.lines@
    &&& n.cursor_line == o.cursor_line
    &&& n.cursor_col == 0
    &&& np is None
}

/// Move the cursor to the start of its line.
pub fn move_to_line_start(state: &mut EditorState, preferred_visual_col: &mut Option<usize>)
    ensures
        after_move_to_line_start(*old(state), *final(state), *old(preferred_visual_col), *final(preferred_visual_col)),
{
    set_cursor_col(state, 0, preferred_visual_col);
}

/// Byte length of line `i`, 0 when there is no such line.
pub open spec fn line_len_or_zero(lines: Seq<String>, i: int) -> int {
    if 0 <= i < lines.len() {
        lb(lines[i]).len() as int
    } else {
        0
    }
}

/// The state after moving to the end of the line.
pub open spec fn after_move_to_line_end(o: EditorState, n: EditorState, op: Option<usize>, np: Option<usize>) -> bool {
    &&& n.lines@ == o.lines@
    &&& n.cursor_line == o.cursor_line
    &&& n.cursor_col == line_len_or_zero(o.lines@, o.cursor_line as int)
    &&& np is None
}

/// Move the cursor to the end of its line.
pub fn move_to_line_end(state: &mut EditorState, preferred_visual_col: &mut Option<usize>)
    ensures
        after_move_to_line_end(*old(state), *final(state), *old(preferred_visual_col), *final(preferred_visual_col)),
{
    let len = byte_length(state.current_line());
    set_cursor_col(state, len, preferred_visual_col);
}

/// Byte offset of the start of the last `k` graphemes before `col` on `line`.
fn grapheme_prefix_len(gs: &Vec<String>, k: usize) -> (n: usize)
    requires
        k <= gs@.len(),
        byte_len(concat_all(string_views(gs@))) <= usize::MAX,
    ensures
        n == byte_len(concat_all(string_views(gs@).take(k as int))),
{
    let ghost v = string_views(gs@);
    let mut n: usize = 0;
    let mut i: usize = 0;
    assert(v.take(0) =~= Seq::<Seq<char>>::empty());
    while i < k
        invariant
            k <= gs@.len(),
            v == string_views(gs@),
            byte_len(concat_all(v)) <= usize::MAX,
            i <= k,
            n == byte_len(concat_all(v.take(i as int))),
        decreases k - i,
    {
        proof {
            assert(v.take(i + 1).drop_last() =~= v.take(i as int));
            assert(v.take(i + 1).last() == v[i as int]);
            lemma_encode_concat(concat_all(v.take(i as int)), v[i as int]);
            lemma_grapheme_prefix_boundary(v, i + 1, Seq::empty());
        }
        n = n + byte_length(gs[i].as_str());
        i = i + 1;
    }
    n
}

/// Index (in graphemes) where a backward word move from the end of `gs` lands.
fn word_start_index(gs: &Vec<String>, wide: bool) -> (k: usize)
    ensures
        k == word_start_before(string_views(gs@), wide),
{
    let ghost v = string_views(gs@);
    let mut idx = gs.len();
    while idx > 0 && is_ws_class(gs[idx - 1].as_str(), wide)
        invariant
            v == string_views(gs@),
            idx <= gs@.len(),
            back_while(v, v.len() as int, 0, wide) == back_while(v, idx as int, 0, wide),
        decreases idx,
    {
        idx = idx - 1;
    }
    if idx > 0 {
        if is_punctuation_grapheme(gs[idx - 1].as_str()) {
            while idx > 0 && is_punctuation_grapheme(gs[idx - 1].as_str())
                invariant
                    v == string_views(gs@),
                    idx <= gs@.len(),
                    word_start_before(v, wide) == back_while(v, idx as int, 1, wide),
                decreases idx,
            {
                idx = idx - 1;
            }
        } else {
            while idx > 0 && !is_ws_class(gs[idx - 1].as_str(), wide)
                && !is_punctuation_grapheme(gs[idx - 1].as_str())
                invariant
                    v == string_views(gs@),
                    idx <= gs@.len(),
                    word_start_before(v, wide) == back_while(v, idx as int, 2, wide),
                decreases idx,
            {
                idx = idx - 1;
            }
        }
    }
    idx
}

/// Index (in graphemes) where a forward word move from the start of `gs` lands.
fn word_end_index(gs: &Vec<String>, wide: bool) -> (k: usize)
    ensures
        k == word_end_after(string_views(gs@), wide),
{
    let ghost v = string_views(gs@);
    let n = gs.len();
    let mut idx: usize = 0;
    while idx < n && is_ws_class(gs[idx].as_str(), wide)
        invariant
            v == string_views(gs@),
            n == gs@.len(),
            idx <= n,
            fwd_while(v, 0, 0, wide) == fwd_while(v, idx as int, 0, wide),
        decreases n - idx,
    {
        idx = idx + 1;
    }
    if idx < n {
        if is_punctuation_grapheme(gs[idx].as_str()) {
            while idx < n && is_punctuation_grapheme(gs[idx].as_str())
                invariant
                    v == string_views(gs@),
                    n == gs@.len(),
                    idx <= n,
                    word_end_after(v, wide) == fwd_while(v, idx as int, 1, wide),
                decreases n - idx,
            {
                idx = idx + 1;
            }
        } else {
            while idx < n && !is_ws_class(gs[idx].as_str(), wide)
                && !is_punctuation_grapheme(gs[idx].as_str())
                invariant
                    v == string_views(gs@),
                    n == gs@.len(),
                    idx <= n,
                    word_end_after(v, wide) == fwd_while(v, idx as int, 2, wide),
                decreases n - idx,
            {
                idx = idx + 1;
            }
        }
    }
    idx
}

/// The byte offset a backward word move from `col` reaches on `line`.
pub fn word_back_target(line: &str, col: usize, wide: bool) -> (r: usize)
    requires
        col <= encode_utf8(line@).len(),
        is_char_boundary(encode_utf8(line@), col as int),
    ensures
        r == word_back_col(encode_utf8(line@), col as int, wide),
        r <= col,
        is_char_boundary(encode_utf8(line@), r as int),
{
    let (before, after) = split_at_byte(line, col);
    let gs = grapheme_strings(before.as_str());
    let k = word_start_index(&gs, wide);
    proof {
        broadcast use encode_utf8_decode_utf8;

        lemma_word_start_range(string_views(gs@), wide);
        lemma_grapheme_prefix_boundary(string_views(gs@), k as int, after@);
        lemma_grapheme_prefix_boundary(string_views(gs@), k as int, Seq::empty());
        assert(concat_all(string_views(gs@)) + Seq::<char>::empty() =~= before@);
    }
    grapheme_prefix_len(&gs, k)
}

/// The byte offset a forward word move from `col` reaches on `line`.
pub fn word_fwd_target(line: &str, col: usize, wide: bool) -> (r: usize)
    requires
        col <= encode_utf8(line@).len(),
        is_char_boundary(encode_utf8(line@), col as int),
    ensures
        r == word_fwd_col(encode_utf8(line@), col as int, wide),
        col <= r <= encode_utf8(line@).len(),
        is_char_boundary(encode_utf8(line@), r as int),
{
    let total = byte_length(line);
    let (before, after) = split_at_byte(line, col);
    let gs = grapheme_strings(after.as_str());
    let k = word_end_index(&gs, wide);
    proof {
        broadcast use encode_utf8_decode_utf8;

        let v = string_views(gs@);
        lemma_word_end_range(v, wide);
        lemma_grapheme_prefix_boundary(v, k as int, Seq::empty());
        assert(concat_all(v) + Seq::<char>::empty() =~= after@);
        lemma_encode_concat(before@, after@);
        lemma_concat_all_split(v, k as int);
        let a = concat_all(v.take(k as int));
        let b = concat_all(v.skip(k as int));
        assert(line@ =~= (before@ + a) + b);
        lemma_boundary_concat(before@ + a, b);
        lemma_encode_concat(before@, a);
        lemma_encode_concat(a, b);
    }
    col + grapheme_prefix_len(&gs, k)
}

/// The state after moving back by a word.
pub open spec fn after_move_word_backwards(o: EditorState, n: EditorState, op: Option<usize>, np: Option<usize>) -> bool {
    &&& n.lines@ == o.lines@
    &&& o.cursor_col == 0 && o.cursor_line == 0 ==> n == o
        && np == op
    &&& o.cursor_col == 0 && o.cursor_line > 0 ==> n.cursor_line
        == o.cursor_line - 1 && n.cursor_col == line_len_or_zero(
        o.lines@,
        o.cursor_line - 1,
    ) && np is None
    &&& o.cursor_col > 0 ==> n.cursor_line == o.cursor_line
        && n.cursor_col == word_back_col(
        lb(o.lines@[o.cursor_line as int]),
        o.cursor_col as int,
        false,
    ) && np is None
    &&& o.cursor_col > 0 ==> n.cursor_col <= o.cursor_col
        && is_char_boundary(
        lb(o.lines@[o.cursor_line as int]),
        n.cursor_col as int,
    )
}

/// Move the cursor back by one word: past trailing white space, then past
/// a punctuation run or a word run; at the start of a line, to the end of
/// the previous line.
pub fn move_word_backwards(state: &mut EditorState, preferred_visual_col: &mut Option<usize>)
    requires
        old(state).cursor_col > 0 ==> old(state).cursor_line < old(state).lines@.len()
            && col_at_boundary(
            old(state).lines@[old(state).cursor_line as int],
            old(state).cursor_col as int,
        ),
    ensures
        after_move_word_backwards(*old(state), *final(state), *old(preferred_visual_col), *final(preferred_visual_col)),
{
    if state.cursor_col == 0 {
        if state.cursor_line > 0 {
            state.cursor_line = state.cursor_line - 1;
            let len = byte_length(state.current_line());
            set_cursor_col(state, len, preferred_visual_col);
        }
        return;
    }
    let col = word_back_target(state.lines[state.cursor_line].as_str(), state.cursor_col, false);
    set_cursor_col(state, col, preferred_visual_col);
}

/// The state after moving forward by a word.
pub open spec fn after_move_word_forwards(o: EditorState, n: EditorState, op: Option<usize>, np: Option<usize>) -> bool {
    &&& n.lines@ == o.lines@
    &&& ({
        let cl = o.cursor_line as int;
        let col = o.cursor_col as int;
        if col >= line_len_or_zero(o.lines@, cl) {
            if cl < o.lines@.len() - 1 {
                n.cursor_line == cl + 1 && n.cursor_col == 0
                    && np is None
            } else {
                n == o && np == op
            }
        } else {
            n.cursor_line == cl && n.cursor_col == word_fwd_col(
                lb(o.lines@[cl]),
                col,
                false,
            ) && np is None && col <= n.cursor_col
                <= lb(o.lines@[cl]).len() && is_char_boundary(
                lb(o.lines@[cl]),
                n.cursor_col as int,
            )
        }
    })
}

/// Move the cursor forward by one word: past leading white space, then
/// past a punctuation run or a word run; at the end of a line, to the start
/// of the next line.
pub fn move_word_forwards(state: &mut EditorState, preferred_visual_col: &mut Option<usize>)
    requires
        old(state).lines@.len() > 0,
        old(state).cursor_line < old(state).lines@.len() && old(state).cursor_col < lb(
            old(state).lines@[old(state).cursor_line as int],
        ).len() ==> is_char_boundary(
            lb(old(state).lines@[old(state).cursor_line as int]),
            old(state).cursor_col as int,
        ),
    ensures
        after_move_word_forwards(*old(state), *final(state), *old(preferred_visual_col), *final(preferred_visual_col)),
{
    let len = byte_length(state.current_line());
    if state.cursor_col >= len {
        if state.cursor_line < state.lines.len() - 1 {
            state.cursor_line = state.cursor_line + 1;
            set_cursor_col(state, 0, preferred_visual_col);
        }
        return;
    }
    let col = word_fwd_target(state.lines[state.cursor_line].as_str(), state.cursor_col, false);
    set_cursor_col(state, col, preferred_visual_col);
}

/// Last index at or before `i` where `n` occurs in `h`.
pub open spec fn rfind_from(h: Seq<u8>, n: Seq<u8>, i: int) -> Option<int>
    decreases i + 1,
{
    if i < 0 {
        None
    } else if i + n.len() <= h.len() && h.subrange(i, i + n.len()) == n {
        Some(i)
    } else {
        rfind_from(h, n, i - 1)
    }
}

/// First line at or after `i` holding `target` (from `col + 1` on the cursor
/// line `cl`), as (line, byte offset).
pub open spec fn jump_forward_from(lines: Seq<Seq<u8>>, i: int, cl: int, col: int, target: Seq<u8>) -> Option<(int, int)>
    decreases lines.len() - i,
{
    if i < 0 || i >= lines.len() {
        None
    } else {
        let from = if i == cl {
            col + 1
        } else {
            0
        };
        if from <= lines[i].len() && find_from(lines[i].skip(from), target, 0) is Some {
            Some((i, from + find_from(lines[i].skip(from), target, 0).unwrap()))
        } else {
            jump_forward_from(lines, i + 1, cl, col, target)
        }
    }
}

/// Last line at or before `i` holding `target` (wholly before `col` on the
/// cursor line `cl`), as (line, byte offset).
pub open spec fn jump_backward_from(lines: Seq<Seq<u8>>, i: int, cl: int, col: int, target: Seq<u8>) -> Option<(int, int)>
    decreases i + 1,
{
    if i < 0 || i >= lines.len() {
        None
    } else {
        let until = if i == cl {
            col
        } else {
            lines[i].len() as int
        };
        let end = if until < lines[i].len() {
            until
        } else {
            lines[i].len() as int
        };
        let h = lines[i].take(end);
        match rfind_from(h, target, h.len() - target.len()) {
            Some(k) => Some((i, k)),
            None => jump_backward_from(lines, i - 1, cl, col, target),
        }
    }
}

pub open spec fn all_line_bytes(lines: Seq<String>) -> Seq<Seq<u8>> {
    lines.map_values(|s: String| encode_utf8(s@))
}

/// Where a jump to `target` from (`cl`, `col`) lands, as (line, byte offset).
pub open spec fn jump_target(lines: Seq<String>, cl: int, col: int, target: Seq<u8>, forward: bool) -> Option<(int, int)> {
    if forward {
        jump_forward_from(all_line_bytes(lines), cl, cl, col, target)
    } else {
        jump_backward_from(all_line_bytes(lines), cl, cl, col, target)
    }
}

fn rfind_bytes(h: &[u8], n: &[u8]) -> (r: Option<usize>)
    ensures
        match r {
            Some(k) => rfind_from(h@, n@, h@.len() - n@.len()) == Some(k as int),
            None => rfind_from(h@, n@, h@.len() - n@.len()) is None,
        },
{
    let hl = h.len();
    let nl = n.len();
    if nl > hl {
        return None;
    }
    let mut i = hl - nl;
    loop
        invariant
            hl == h@.len(),
            nl == n@.len(),
            i <= hl - nl,
            rfind_from(h@, n@, h@.len() - n@.len()) == rfind_from(h@, n@, i as int),
        decreases i,
    {
        if crate::bytes::occurs_at(h, n, i) {
            return Some(i);
        }
        if i == 0 {
            assert(rfind_from(h@, n@, -1) is None);
            return None;
        }
        i = i - 1;
    }
}

/// Where a jump to `tb` from (`cl`, `col`) lands, searching across lines.
fn jump_position(lines_v: &Vec<String>, cl: usize, col: usize, tb: &[u8], forward: bool) -> (r: Option<(usize, usize)>)
    requires
        forward ==> col < usize::MAX,
        forward && cl < lines_v@.len() && col + 1 <= lb(lines_v@[cl as int]).len() ==> is_char_boundary(
            lb(lines_v@[cl as int]),
            col + 1,
        ),
        !forward ==> cl < lines_v@.len(),
    ensures
        r is Some ==> jump_target(lines_v@, cl as int, col as int, tb@, forward) == Some(
            (r.unwrap().0 as int, r.unwrap().1 as int),
        ),
        r is None ==> jump_target(lines_v@, cl as int, col as int, tb@, forward) is None,
{
    let ghost lines = all_line_bytes(lines_v@);
    let ghost cl0 = cl as int;
    let ghost col0 = col as int;
    if forward {
        let n = lines_v.len();
        let mut i = cl;
        while i < n
            invariant
                forward,
                n == lines_v@.len(),
                lines == all_line_bytes(lines_v@),
                cl0 == cl,
                col0 == col,
                col0 < usize::MAX,
                cl0 <= i,
                jump_forward_from(lines, cl0, cl0, col0, tb@) == jump_forward_from(
                    lines,
                    i as int,
                    cl0,
                    col0,
                    tb@,
                ),
            decreases n - i,
        {
            let bytes = lines_v[i].as_str().as_bytes();
            let len = bytes.len();
            let from = if i == cl {
                col + 1
            } else {
                0
            };
            assert(bytes@ == lines[i as int]);
            if from <= len {
                let rest = &bytes[from..len];
                assert(rest@ =~= lines[i as int].skip(from as int));
                if let Some(idx) = crate::bytes::find_subsequence(rest, tb) {
                    proof {
                        crate::stdin_buffer::lemma_find_from_range(rest@, tb@, 0);
                    }
                    return Some((i, from + idx));
                }
            }
            i = i + 1;
        }
        None
    } else {
        let mut i = cl;
        loop
            invariant
                !forward,
                lines_v@.len() == lines.len(),
                lines == all_line_bytes(lines_v@),
                cl0 == cl,
                col0 == col,
                i <= cl0 < lines.len(),
                jump_backward_from(lines, cl0, cl0, col0, tb@) == jump_backward_from(
                    lines,
                    i as int,
                    cl0,
                    col0,
                    tb@,
                ),
            decreases i,
        {
            let bytes = lines_v[i].as_str().as_bytes();
            let len = bytes.len();
            assert(bytes@ == lines[i as int]);
            let until = if i == cl {
                col
            } else {
                len
            };
            let end = if until < len {
                until
            } else {
                len
            };
            let head = &bytes[0..end];
            assert(head@ =~= lines[i as int].take(end as int));
            if let Some(k) = rfind_bytes(head, tb) {
                return Some((i, k));
            }
            if i == 0 {
                assert(jump_backward_from(lines, -1, cl0, col0, tb@) is None);
                return None;
            }
            i = i - 1;
        }
    }
}

/// The state after jumping to the next (or previous) `target`.
pub open spec fn after_jump_to_char(o: EditorState, n: EditorState, op: Option<usize>, np: Option<usize>, target: Seq<char>, forward: bool) -> bool {
    &&& n.lines@ == o.lines@
    &&& jump_target(o.lines@, o.cursor_line as int, o.cursor_col as int, encode_utf8(target), forward) matches Some(p)
        ==> n.cursor_line == p.0 && n.cursor_col == p.1
        && np is None
    &&& jump_target(o.lines@, o.cursor_line as int, o.cursor_col as int, encode_utf8(target), forward) is None
        ==> n == o && np == op
}

/// Jump to the next (`forward`) or previous occurrence of `target`,
/// searching across lines and skipping the cursor position.
pub fn jump_to_char(
    state: &mut EditorState,
    target: &str,
    forward: bool,
    preferred_visual_col: &mut Option<usize>,
)
    requires
        forward ==> old(state).cursor_col < usize::MAX,
        forward && old(state).cursor_line < old(state).lines@.len() && old(state).cursor_col + 1
            <= lb(old(state).lines@[old(state).cursor_line as int]).len() ==> is_char_boundary(
            lb(old(state).lines@[old(state).cursor_line as int]),
            old(state).cursor_col + 1,
        ),
        !forward ==> old(state).cursor_line < old(state).lines@.len(),
        !forward ==> ({
            let b = lb(old(state).lines@[old(state).cursor_line as int]);
            is_char_boundary(b, if old(state).cursor_col < b.len() {
                old(state).cursor_col as int
            } else {
                b.len() as int
            })
        }),
    ensures
        after_jump_to_char(*old(state), *final(state), *old(preferred_visual_col), *final(preferred_visual_col), target@, forward),
        target@.len() > 0 && cursor_ok(*old(state)) ==> cursor_ok(*final(state)),
{
    let tb = target.as_bytes();
    match jump_position(&state.lines, state.cursor_line, state.cursor_col, tb, forward) {
        Some((l, c)) => {
            state.cursor_line = l;
            set_cursor_col(state, c, preferred_visual_col);
        },
        None => {},
    }
    proof {
        if target@.len() > 0 && cursor_ok(*old(state)) {
            law_jump_keeps_cursor_on_boundary(
                *old(state),
                *state,
                *old(preferred_visual_col),
                *preferred_visual_col,
                target@,
                forward,
            );
        }
    }
}

/// The largest visual column on segment `i`: its length on the last segment
/// of a logical line, one less elsewhere (the next segment starts there).
pub open spec fn seg_max(vls: Seq<VisualLine>, i: int) -> int {
    let vl = vls[i];
    let last = i == vls.len() - 1 || (i + 1 < vls.len() && vls[i + 1].logical_line != vl.logical_line);
    if last {
        vl.length as int
    } else if vl.length > 0 {
        vl.length - 1
    } else {
        0
    }
}

/// The sticky-column decision for a vertical move from visual column `cur`
/// (largest `smax` on its segment) to a segment whose largest column is
/// `tmax`: the column to land on and the preferred column afterwards.
/// Without a preferred column, or with the cursor inside its segment, the
/// cursor keeps its column, clamped (remembering the column when clamped).
/// At a segment's end with a preferred column, it lands there when the
/// target is long enough (forgetting it), else at the target's end.
pub open spec fn vertical_move(cur: int, smax: int, tmax: int, pref: Option<usize>) -> (int, Option<usize>) {
    if pref is None || cur < smax {
        if tmax < cur {
            (tmax, Some(cur as usize))
        } else {
            (cur, None)
        }
    } else {
        let p = pref.unwrap() as int;
        if tmax < cur || tmax < p {
            (tmax, pref)
        } else {
            (p, None)
        }
    }
}

/// Compute the target visual column for a vertical move, updating the
/// preferred column.
pub fn compute_vertical_move_column(
    current_visual_col: usize,
    source_max: usize,
    target_max: usize,
    preferred: &mut Option<usize>,
) -> (r: usize)
    ensures
        (r as int, *final(preferred)) == vertical_move(
            current_visual_col as int,
            source_max as int,
            target_max as int,
            *old(preferred),
        ),
{
    let has_preferred = preferred.is_some();
    let cursor_in_middle = current_visual_col < source_max;
    let target_too_short = target_max < current_visual_col;
    if !has_preferred || cursor_in_middle {
        if target_too_short {
            *preferred = Some(current_visual_col);
            return target_max;
        }
        *preferred = None;
        return current_visual_col;
    }
    let pref_val = preferred.unwrap();
    let target_cant_fit = target_max < pref_val;
    if target_too_short || target_cant_fit {
        return target_max;
    }
    *preferred = None;
    pref_val
}

/// The visual line found for the cursor is one of the map's.
pub proof fn lemma_cursor_visual_line_range(vls: Seq<VisualLine>, i: int, line: int, col: int)
    requires
        0 <= i,
    ensures
        vls.len() > 0 ==> 0 <= cursor_visual_line_from(vls, i, line, col) < vls.len(),
    decreases vls.len() - i,
{
    if i < vls.len() && !visual_line_has_cursor(vls, i, line, col) {
        lemma_cursor_visual_line_range(vls, i + 1, line, col);
    }
}

/// Every segment of the map lies within a line of `lines`.
pub open spec fn visual_map_ok(lines: Seq<String>, vls: Seq<VisualLine>) -> bool {
    forall|i: int|
        0 <= i < vls.len() ==> (#[trigger] vls[i]).logical_line < lines.len() && vls[i].start_col
            + vls[i].length <= lb(lines[vls[i].logical_line as int]).len()
}

/// Cursor line, column and preferred column after moving from segment
/// `ci` to segment `ti` of the map.
pub open spec fn to_visual_line(
    lines: Seq<String>,
    vls: Seq<VisualLine>,
    ci: int,
    ti: int,
    col: int,
    pref: Option<usize>,
) -> (int, int, Option<usize>) {
    let cv = vls[ci];
    let tv = vls[ti];
    let cur = if col >= cv.start_col {
        col - cv.start_col
    } else {
        0
    };
    let m = vertical_move(cur, seg_max(vls, ci), seg_max(vls, ti), pref);
    let tc = tv.start_col + m.0;
    let ll = line_len_or_zero(lines, tv.logical_line as int);
    (tv.logical_line as int, if tc < ll { tc } else { ll }, m.1)
}

/// Move the cursor to visual line `target` of the map, keeping its visual
/// column as the sticky-column rules say.
pub fn move_to_visual_line(
    state: &mut EditorState,
    visual_lines: &[VisualLine],
    current_visual_line: usize,
    target_visual_line: usize,
    preferred_visual_col: &mut Option<usize>,
)
    requires
        visual_map_ok(old(state).lines@, visual_lines@),
    ensures
        final(state).lines@ == old(state).lines@,
        current_visual_line < visual_lines@.len() && target_visual_line < visual_lines@.len() ==> (
        final(state).cursor_line as int, final(state).cursor_col as int, *final(preferred_visual_col))
            == to_visual_line(
            old(state).lines@,
            visual_lines@,
            current_visual_line as int,
            target_visual_line as int,
            old(state).cursor_col as int,
            *old(preferred_visual_col),
        ),
        !(current_visual_line < visual_lines@.len() && target_visual_line < visual_lines@.len())
            ==> *final(state) == *old(state) && *final(preferred_visual_col) == *old(preferred_visual_col),
{
    let n = visual_lines.len();
    if current_visual_line >= n || target_visual_line >= n {
        return;
    }
    let cv = &visual_lines[current_visual_line];
    let tv = &visual_lines[target_visual_line];
    proof {
        assert(visual_lines@[target_visual_line as int] == *tv);
    }
    let current_visual_col = if state.cursor_col >= cv.start_col {
        state.cursor_col - cv.start_col
    } else {
        0
    };
    let is_last_source = current_visual_line == n - 1 || (current_visual_line + 1 < n
        && visual_lines[current_visual_line + 1].logical_line != cv.logical_line);
    let source_max = if is_last_source {
        cv.length
    } else if cv.length > 0 {
        cv.length - 1
    } else {
        0
    };
    let is_last_target = target_visual_line == n - 1 || (target_visual_line + 1 < n
        && visual_lines[target_visual_line + 1].logical_line != tv.logical_line);
    let target_max = if is_last_target {
        tv.length
    } else if tv.length > 0 {
        tv.length - 1
    } else {
        0
    };
    let move_to = compute_vertical_move_column(
        current_visual_col,
        source_max,
        target_max,
        preferred_visual_col,
    );
    let ll = tv.logical_line;
    let line_len = byte_length(state.lines[ll].as_str());
    proof {
        assert(move_to <= target_max);
        assert(tv.start_col + tv.length <= line_len);
    }
    let target_col = tv.start_col + move_to;
    state.cursor_line = ll;
    state.cursor_col = if target_col < line_len {
        target_col
    } else {
        line_len
    };
}

// ── Where the cursor lands ──────────────────────────────────────────

pub proof fn lemma_move_word_backwards_ok(o: EditorState, n: EditorState, op: Option<usize>, np: Option<usize>)
    requires
        cursor_ok(o),
        after_move_word_backwards(o, n, op, np),
    ensures
        cursor_ok(n),
{
    broadcast use encode_utf8_valid_utf8;

    if o.cursor_col == 0 && o.cursor_line > 0 {
        is_char_boundary_start_end_of_seq(lb(o.lines@[o.cursor_line - 1]));
    }
}

pub proof fn lemma_move_word_forwards_ok(o: EditorState, n: EditorState, op: Option<usize>, np: Option<usize>)
    requires
        cursor_ok(o),
        after_move_word_forwards(o, n, op, np),
    ensures
        cursor_ok(n),
{
    broadcast use encode_utf8_valid_utf8;

    if o.cursor_line + 1 < o.lines@.len() {
        is_char_boundary_start_end_of_seq(lb(o.lines@[o.cursor_line + 1]));
    }
}

pub proof fn lemma_line_start_ok(o: EditorState, n: EditorState, op: Option<usize>, np: Option<usize>)
    requires
        cursor_ok(o),
        after_move_to_line_start(o, n, op, np),
    ensures
        cursor_ok(n),
{
    broadcast use encode_utf8_valid_utf8;

    is_char_boundary_start_end_of_seq(lb(o.lines@[o.cursor_line as int]));
}

pub proof fn lemma_line_end_ok(o: EditorState, n: EditorState, op: Option<usize>, np: Option<usize>)
    requires
        cursor_ok(o),
        after_move_to_line_end(o, n, op, np),
    ensures
        cursor_ok(n),
{
    broadcast use encode_utf8_valid_utf8;

    is_char_boundary_start_end_of_seq(lb(o.lines@[o.cursor_line as int]));
}

proof fn lemma_find_from_range(h: Seq<u8>, n: Seq<u8>, i: int)
    ensures
        find_from(h, n, i) matches Some(e) ==> i <= e && e + n.len() <= h.len() && h.subrange(e, e + n.len()) == n,
    decreases h.len() + 1 - i,
{
    if i < 0 || i + n.len() > h.len() {
    } else if h.subrange(i, i + n.len()) == n {
    } else {
        lemma_find_from_range(h, n, i + 1);
    }
}

proof fn lemma_rfind_from_range(h: Seq<u8>, n: Seq<u8>, i: int)
    ensures
        rfind_from(h, n, i) matches Some(e) ==> 0 <= e <= i && e + n.len() <= h.len() && h.subrange(e, e + n.len()) == n,
    decreases i + 1,
{
    if i < 0 {
    } else if i + n.len() <= h.len() && h.subrange(i, i + n.len()) == n {
    } else {
        rfind_from(h, n, i - 1);
        lemma_rfind_from_range(h, n, i - 1);
    }
}

/// A match of a non-empty valid encoding in a valid line starts on a
/// character boundary.
proof fn lemma_match_boundary(line: Seq<u8>, t: Seq<u8>, e: int)
    requires
        valid_utf8(line),
        valid_utf8(t),
        t.len() > 0,
        0 <= e,
        e + t.len() <= line.len(),
        line.subrange(e, e + t.len()) == t,
    ensures
        is_char_boundary(line, e),
{
    assert(line[e] == t[0]);
    is_char_boundary_start_end_of_seq(t);
    is_char_boundary_iff_not_is_continuation_byte(t, 0);
    is_char_boundary_iff_not_is_continuation_byte(line, e);
}

proof fn lemma_jump_forward_range(ls: Seq<Seq<u8>>, i: int, cl: int, col: int, t: Seq<u8>)
    requires
        col >= 0,
        forall|k: int| 0 <= k < ls.len() ==> valid_utf8(#[trigger] ls[k]),
        valid_utf8(t),
        t.len() > 0,
    ensures
        jump_forward_from(ls, i, cl, col, t) matches Some(p) ==> 0 <= p.0 < ls.len() && 0 <= p.1 <= ls[p.0].len()
            && is_char_boundary(ls[p.0], p.1),
    decreases ls.len() - i,
{
    if i < 0 || i >= ls.len() {
    } else {
        let from = if i == cl {
            col + 1
        } else {
            0
        };
        if from <= ls[i].len() && find_from(ls[i].skip(from), t, 0) is Some {
            let e = find_from(ls[i].skip(from), t, 0).unwrap();
            lemma_find_from_range(ls[i].skip(from), t, 0);
            assert(ls[i].subrange(from + e, from + e + t.len()) =~= ls[i].skip(from).subrange(e, e + t.len()));
            lemma_match_boundary(ls[i], t, from + e);
        } else {
            lemma_jump_forward_range(ls, i + 1, cl, col, t);
        }
    }
}

proof fn lemma_jump_backward_range(ls: Seq<Seq<u8>>, i: int, cl: int, col: int, t: Seq<u8>)
    requires
        col >= 0,
        forall|k: int| 0 <= k < ls.len() ==> valid_utf8(#[trigger] ls[k]),
        valid_utf8(t),
        t.len() > 0,
    ensures
        jump_backward_from(ls, i, cl, col, t) matches Some(p) ==> 0 <= p.0 < ls.len() && 0 <= p.1 <= ls[p.0].len()
            && is_char_boundary(ls[p.0], p.1),
    decreases i + 1,
{
    if i < 0 || i >= ls.len() {
    } else {
        let until = if i == cl {
            col
        } else {
            ls[i].len() as int
        };
        let end = if until < ls[i].len() {
            until
        } else {
            ls[i].len() as int
        };
        let h = ls[i].take(end);
        lemma_rfind_from_range(h, t, h.len() - t.len());
        match rfind_from(h, t, h.len() - t.len()) {
            Some(k) => {
                assert(ls[i].subrange(k, k + t.len()) =~= h.subrange(k, k + t.len()));
                lemma_match_boundary(ls[i], t, k);
            },
            None => {
                lemma_jump_backward_range(ls, i - 1, cl, col, t);
            },
        }
    }
}

/// A character jump leaves the cursor on a character boundary of a line,
/// whether it found its target or not.
pub proof fn law_jump_keeps_cursor_on_boundary(
    o: EditorState,
    n: EditorState,
    op: Option<usize>,
    np: Option<usize>,
    target: Seq<char>,
    forward: bool,
)
    requires
        cursor_ok(o),
        target.len() > 0,
        after_jump_to_char(o, n, op, np, target, forward),
    ensures
        cursor_ok(n),
{
    broadcast use encode_utf8_valid_utf8;

    let ls = all_line_bytes(o.lines@);
    assert forall|k: int| 0 <= k < ls.len() implies valid_utf8(#[trigger] ls[k]) by {
        assert(ls[k] == encode_utf8(o.lines@[k]@));
    }
    let t = encode_utf8(target);
    assert(t.len() > 0) by {
        assert(t =~= encode_scalar(target[0] as u32) + encode_utf8(target.drop_first()));
    }
    let cl = o.cursor_line as int;
    let col = o.cursor_col as int;
    lemma_jump_forward_range(ls, cl, cl, col, t);
    lemma_jump_backward_range(ls, cl, cl, col, t);
    match jump_target(o.lines@, cl, col, t, forward) {
        Some(p) => {
            assert(ls[p.0] == lb(o.lines@[p.0]));
        },
        None => {},
    }
}

/// Bytes of line `i`, empty when there is no such line.
pub open spec fn line_at_or_empty(lines: Seq<String>, i: int) -> Seq<u8> {
    if 0 <= i < lines.len() {
        lb(lines[i])
    } else {
        Seq::empty()
    }
}

/// Cursor line, column and preferred column after `move_cursor`.
pub open spec fn cursor_moved(
    lines: Seq<String>,
    vls: Seq<VisualLine>,
    line: int,
    col: int,
    pref: Option<usize>,
    delta_line: int,
    delta_col: int,
) -> (int, int, Option<usize>) {
    let cvl = cursor_visual_line_from(vls, 0, line, col);
    let t = cvl + delta_line;
    let s1 = if delta_line != 0 && 0 <= t < vls.len() {
        to_visual_line(lines, vls, cvl, t, col, pref)
    } else {
        (line, col, pref)
    };
    let l1 = s1.0;
    let c1 = s1.1;
    let cl = line_at_or_empty(lines, l1);
    if delta_col > 0 {
        if c1 < cl.len() {
            (l1, c1 + first_grapheme_len(decode_utf8(cl.skip(c1))), None)
        } else if l1 < lines.len() - 1 {
            (l1 + 1, 0, None)
        } else if cvl < vls.len() {
            (l1, c1, Some((c1 - vls[cvl].start_col) as usize))
        } else {
            s1
        }
    } else if delta_col < 0 {
        if c1 > 0 {
            (l1, c1 - last_grapheme_len(decode_utf8(cl.take(c1))), None)
        } else if l1 > 0 {
            (l1 - 1, line_len_or_zero(lines, l1 - 1), None)
        } else {
            s1
        }
    } else {
        s1
    }
}

/// The inputs on which the horizontal part of `move_cursor` can slice the
/// cursor line: the column it starts from is a character boundary within
/// the line, and at the end of the text the visual line it counts from
/// starts at or before it.
pub open spec fn horizontal_ok(
    lines: Seq<String>,
    vls: Seq<VisualLine>,
    line: int,
    col: int,
    pref: Option<usize>,
    delta_line: int,
    delta_col: int,
) -> bool {
    let cvl = cursor_visual_line_from(vls, 0, line, col);
    let t = cvl + delta_line;
    let s1 = if delta_line != 0 && 0 <= t < vls.len() {
        to_visual_line(lines, vls, cvl, t, col, pref)
    } else {
        (line, col, pref)
    };
    let cl = line_at_or_empty(lines, s1.0);
    &&& delta_col > 0 && s1.1 < cl.len() ==> is_char_boundary(cl, s1.1)
    &&& delta_col > 0 && s1.1 >= cl.len() && s1.0 >= lines.len() - 1 && cvl < vls.len() ==> vls[cvl].start_col <= s1.1
    &&& delta_col < 0 && s1.1 > 0 ==> s1.1 <= cl.len() && is_char_boundary(cl, s1.1)
}

/// Move the cursor vertically (`delta_line` -1 up, +1 down, by visual
/// line) and horizontally (`delta_col` -1 left, +1 right, by grapheme,
/// wrapping between lines). `visual_lines` is the layout's map of visual
/// lines, which the caller computes from the display width.
pub fn move_cursor(
    state: &mut EditorState,
    delta_line: i32,
    delta_col: i32,
    visual_lines: &[VisualLine],
    preferred_visual_col: &mut Option<usize>,
)
    requires
        old(state).lines@.len() > 0,
        visual_map_ok(old(state).lines@, visual_lines@),
        horizontal_ok(
            old(state).lines@,
            visual_lines@,
            old(state).cursor_line as int,
            old(state).cursor_col as int,
            *old(preferred_visual_col),
            delta_line as int,
            delta_col as int,
        ),
    ensures
        final(state).lines@ == old(state).lines@,
        (final(state).cursor_line as int, final(state).cursor_col as int, *final(preferred_visual_col))
            == cursor_moved(
            old(state).lines@,
            visual_lines@,
            old(state).cursor_line as int,
            old(state).cursor_col as int,
            *old(preferred_visual_col),
            delta_line as int,
            delta_col as int,
        ),
        structural(*old(state)) ==> structural(*final(state)),
        cursor_ok(*old(state)) && delta_line == 0 ==> cursor_ok(*final(state)),
{
    proof {
        broadcast use encode_utf8_valid_utf8;

    }
    let current_visual_line = find_current_visual_line(state, visual_lines);
    let n = visual_lines.len();
    let ghost lines = state.lines@;
    let ghost cvl = current_visual_line as int;
    let ghost t = cvl + delta_line;
    let ghost s1 = if delta_line != 0 && 0 <= t < n {
        to_visual_line(lines, visual_lines@, cvl, t, old(state).cursor_col as int, *old(preferred_visual_col))
    } else {
        (old(state).cursor_line as int, old(state).cursor_col as int, *old(preferred_visual_col))
    };
    if delta_line != 0 {
        let target: i128 = current_visual_line as i128 + delta_line as i128;
        if target >= 0 && target < n as i128 {
            let tu = target as usize;
            proof {
                assert(tu as int == t);
                lemma_cursor_visual_line_range(visual_lines@, 0, old(state).cursor_line as int, old(state).cursor_col as int);
            }
            move_to_visual_line(state, visual_lines, current_visual_line, tu, preferred_visual_col);
        }
    }
    assert((state.cursor_line as int, state.cursor_col as int, *preferred_visual_col) == s1);
    assert(state.lines@ == lines);
    if delta_col != 0 {
        let nlines = state.lines.len();
        let current_line = state.current_line();
        let len = byte_length(current_line);
        let col = state.cursor_col;
        if delta_col > 0 {
            if col < len {
                let g = first_grapheme_at(current_line, col);
                state.cursor_col = col + g;
                *preferred_visual_col = None;
            } else if state.cursor_line < nlines - 1 {
                state.cursor_line = state.cursor_line + 1;
                state.cursor_col = 0;
                proof {
                    crate::strs::lemma_boundary_ends(state.lines@[state.cursor_line as int]@);
                }
                *preferred_visual_col = None;
            } else if current_visual_line < n {
                *preferred_visual_col = Some(col - visual_lines[current_visual_line].start_col);
            }
        } else {
            if col > 0 {
                let g = last_grapheme_before(current_line, col);
                state.cursor_col = col - g;
                *preferred_visual_col = None;
            } else if state.cursor_line > 0 {
                state.cursor_line = state.cursor_line - 1;
                let prev = state.current_line();
                let prev_len = byte_length(prev);
                proof {
                    crate::strs::lemma_boundary_ends(prev@);
                }
                state.cursor_col = prev_len;
                *preferred_visual_col = None;
            }
        }
    }
}

/// Whether the cursor is on the first visual line of the map.
pub fn is_on_first_visual_line(state: &EditorState, visual_lines: &[VisualLine]) -> (r: bool)
    ensures
        r == (cursor_visual_line_from(
            visual_lines@,
            0,
            state.cursor_line as int,
            state.cursor_col as int,
        ) == 0),
{
    find_current_visual_line(state, visual_lines) == 0
}

/// Whether the cursor is on the last visual line of the map (an empty map
/// counts as the cursor on its last line).
pub fn is_on_last_visual_line(state: &EditorState, visual_lines: &[VisualLine]) -> (r: bool)
    ensures
        r == (cursor_visual_line_from(
            visual_lines@,
            0,
            state.cursor_line as int,
            state.cursor_col as int,
        ) == visual_lines@.len() - 1 || visual_lines@.len() == 0),
{
    let cur = find_current_visual_line(state, visual_lines);
    let n = visual_lines.len();
    n == 0 || cur == n - 1
}

} // verus!
