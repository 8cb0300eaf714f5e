//! Text editing operations for the editor: insertion, deletion and line
//! splitting and joining, all grapheme-aware. Columns are byte offsets.

use vstd::prelude::*;
use vstd::utf8::*;

use super::motion::{
    lemma_grapheme_prefix_boundary, move_word_backwards, move_word_forwards, word_back_col,
    word_fwd_col,
};
use super::state::{
    col_at_boundary, col_ok, cursor_ok, join_lines, lb, lemma_line_bytes_insert, lemma_line_bytes_push,
    lemma_line_bytes_remove, lemma_line_bytes_update, line_bytes, line_or_empty, merge_at, min,
    structural, EditorState,
};
use crate::graphemes::{grapheme_strings, graphemes};
use crate::strs::{
    lemma_splice_chars,
    byte_len, byte_length, concat_all, cut_str, lemma_boundary_concat, lemma_boundary_ends,
    lemma_concat_all_first, lemma_concat_all_split, lemma_encode_concat, splice, splice_str,
    split_at_byte, string_views, substring_bytes, split_on, normalize_newlines, normalized_chars,
    split_chars, string_from_chars, chars_of, lemma_split_on_nonempty, lemma_split_on_single,
    concat, char_index_from, lemma_char_index_from_range,
};
use crate::bytes::occurs_at;
use vstd::string::*;

verus! {

/// Byte length of the last grapheme of `s` (0 when `s` is empty).
pub open spec fn last_grapheme_len(s: Seq<char>) -> int {
    let gs = graphemes(s);
    if gs.len() > 0 {
        byte_len(gs.last())
    } else {
        0
    }
}

/// Byte length of the first grapheme of `s` (0 when `s` is empty).
pub open spec fn first_grapheme_len(s: Seq<char>) -> int {
    let gs = graphemes(s);
    if gs.len() > 0 {
        byte_len(gs[0])
    } else {
        0
    }
}

proof fn lemma_encode_nonempty(s: Seq<char>)
    requires
        s.len() > 0,
    ensures
        encode_utf8(s).len() > 0,
{
    assert(encode_utf8(s) =~= encode_scalar(s[0] as u32) + encode_utf8(s.drop_first()));
}

proof fn lemma_encode_empty(s: Seq<char>)
    requires
        encode_utf8(s).len() == 0,
    ensures
        s.len() == 0,
{
    if s.len() > 0 {
        lemma_encode_nonempty(s);
    }
}

/// `col` clamped to the byte length of `line`.
fn clamp_col(line: &str, col: usize) -> (m: usize)
    requires
        col < encode_utf8(line@).len() ==> is_char_boundary(encode_utf8(line@), col as int),
    ensures
        m == min(col as int, encode_utf8(line@).len() as int),
        is_char_boundary(encode_utf8(line@), m as int),
{
    let n = byte_length(line);
    proof {
        lemma_boundary_ends(line@);
    }
    if col < n {
        col
    } else {
        n
    }
}

/// Byte length of the last grapheme of `line` before byte offset `col`.
pub fn last_grapheme_before(line: &str, col: usize) -> (g: usize)
    requires
        0 < col <= encode_utf8(line@).len(),
        is_char_boundary(encode_utf8(line@), col as int),
    ensures
        g == last_grapheme_len(decode_utf8(encode_utf8(line@).take(col as int))),
        0 < g <= col,
        is_char_boundary(encode_utf8(line@), col - g),
{
    let (before, after) = split_at_byte(line, col);
    let gs = grapheme_strings(before.as_str());
    proof {
        broadcast use encode_utf8_decode_utf8;

        if gs@.len() == 0 {
            assert(string_views(gs@) =~= Seq::<Seq<char>>::empty());
            lemma_encode_nonempty(before@);
        }
    }
    let n = gs.len();
    let g = byte_length(gs[n - 1].as_str());
    proof {
        let v = string_views(gs@);
        let k = n - 1;
        lemma_concat_all_split(v, k as int);
        assert(v.skip(k as int) =~= seq![v[k as int]]);
        assert(seq![v[k as int]].drop_last() =~= Seq::<Seq<char>>::empty());
        assert(concat_all(seq![v[k as int]]) =~= v[k as int]);
        lemma_encode_concat(concat_all(v.take(k as int)), v[k as int]);
        lemma_grapheme_prefix_boundary(v, k as int, after@);
        lemma_encode_nonempty(v[k as int]);
        assert(v.last() == v[k as int]);
    }
    g
}

/// Byte length of the first grapheme of `line` at byte offset `col`.
pub fn first_grapheme_at(line: &str, col: usize) -> (g: usize)
    requires
        col < encode_utf8(line@).len(),
        is_char_boundary(encode_utf8(line@), col as int),
    ensures
        g == first_grapheme_len(decode_utf8(encode_utf8(line@).skip(col as int))),
        0 < g,
        col + g <= encode_utf8(line@).len(),
        is_char_boundary(encode_utf8(line@), col + g),
{
    let (before, after) = split_at_byte(line, col);
    let gs = grapheme_strings(after.as_str());
    proof {
        broadcast use encode_utf8_decode_utf8;

        if gs@.len() == 0 {
            assert(string_views(gs@) =~= Seq::<Seq<char>>::empty());
            lemma_encode_nonempty(after@);
        }
    }
    let g = byte_length(gs[0].as_str());
    proof {
        let v = string_views(gs@);
        lemma_concat_all_first(v);
        let rest = concat_all(v.drop_first());
        assert(line@ =~= (before@ + v[0]) + rest);
        lemma_boundary_concat(before@ + v[0], rest);
        lemma_encode_concat(before@, v[0]);
        lemma_encode_concat(before@ + v[0], rest);
        lemma_encode_nonempty(v[0]);
    }
    g
}

/// Join line `i + 1` onto the end of line `i`.
fn join_with_next(state: &mut EditorState, i: usize)
    requires
        i + 1 < old(state).lines@.len(),
    ensures
        line_bytes(final(state).lines@) == merge_at(line_bytes(old(state).lines@), i as int),
        final(state).cursor_line == old(state).cursor_line,
        final(state).cursor_col == old(state).cursor_col,
{
    let ghost old_lines = state.lines@;
    let _n = state.lines.len();
    let next = state.lines.remove(i + 1);
    state.lines[i].append(next.as_str());
    proof {
        lemma_line_bytes_remove(old_lines, i + 1);
        lemma_line_bytes_update(old_lines.remove(i + 1), i as int, state.lines@[i as int]);
        assert(state.lines@ == old_lines.remove(i + 1).update(i as int, state.lines@[i as int]));
        lemma_encode_concat(old_lines[i as int]@, old_lines[i + 1]@);
    }
}

/// The state after inserting `ch` at the cursor.
pub open spec fn after_insert_character(o: EditorState, n: EditorState, ch: Seq<char>) -> bool {
    &&& ({
        let cl = o.cursor_line as int;
        let line = lb(o.lines@[cl]);
        let m = min(o.cursor_col as int, line.len() as int);
        line_bytes(n.lines@) == line_bytes(o.lines@).update(
            cl,
            splice(line, m, m, encode_utf8(ch)),
        )
    })
    &&& n.cursor_line == o.cursor_line
    &&& n.cursor_col == o.cursor_col + encode_utf8(ch).len()
}

/// Insert a character or grapheme at the cursor.
pub fn insert_character(state: &mut EditorState, ch: &str)
    requires
        old(state).cursor_line < old(state).lines@.len(),
        col_ok(old(state).lines@[old(state).cursor_line as int], old(state).cursor_col as int),
        old(state).cursor_col <= lb(old(state).lines@[old(state).cursor_line as int]).len()
            || old(state).cursor_col + encode_utf8(ch@).len() <= usize::MAX,
    ensures
        after_insert_character(*old(state), *final(state), ch@),
{
    let cl = state.cursor_line;
    let m = clamp_col(state.lines[cl].as_str(), state.cursor_col);
    let new_line = splice_str(state.lines[cl].as_str(), m, m, ch);
    let n = byte_length(ch);
    let total = byte_length(new_line.as_str());
    proof {
        lemma_line_bytes_update(state.lines@, cl as int, new_line);
    }
    state.lines[cl] = new_line;
    state.cursor_col = state.cursor_col + n;
}

/// The state after a backspace that reports `r`.
pub open spec fn after_handle_backspace(o: EditorState, n: EditorState, r: bool) -> bool {
    &&& r == (o.cursor_col > 0 || o.cursor_line > 0)
    &&& o.cursor_col > 0 ==> ({
        let cl = o.cursor_line as int;
        let col = o.cursor_col as int;
        let line = lb(o.lines@[cl]);
        let g = last_grapheme_len(decode_utf8(line.take(col)));
        &&& 0 < g <= col
        &&& is_char_boundary(line, col - g)
        &&& line_bytes(n.lines@) == line_bytes(o.lines@).update(
            cl,
            splice(line, col - g, col, Seq::empty()),
        )
        &&& n.cursor_line == cl
        &&& n.cursor_col == col - g
    })
    &&& o.cursor_col == 0 && o.cursor_line > 0 ==> ({
        let cl = o.cursor_line as int;
        &&& line_bytes(n.lines@) == merge_at(line_bytes(o.lines@), cl - 1)
        &&& n.cursor_line == cl - 1
        &&& n.cursor_col == lb(o.lines@[cl - 1]).len()
    })
    &&& !r ==> n == o
}

/// Delete the grapheme before the cursor; at the start of a line, join the
/// line onto the previous one. Whether anything changed.
pub fn handle_backspace(state: &mut EditorState) -> (r: bool)
    requires
        old(state).cursor_col > 0 ==> old(state).cursor_line < old(state).lines@.len()
            && col_at_boundary(
            old(state).lines@[old(state).cursor_line as int],
            old(state).cursor_col as int,
        ),
        old(state).cursor_col == 0 && old(state).cursor_line > 0 ==> old(state).cursor_line < old(state).lines@.len(),
    ensures
        after_handle_backspace(*old(state), *final(state), r),
{
    if state.cursor_col > 0 {
        let cl = state.cursor_line;
        let col = state.cursor_col;
        let g = last_grapheme_before(state.lines[cl].as_str(), col);
        let new_line = cut_str(state.lines[cl].as_str(), col - g, col);
        proof {
            lemma_line_bytes_update(state.lines@, cl as int, new_line);
        }
        state.lines[cl] = new_line;
        state.cursor_col = col - g;
        true
    } else if state.cursor_line > 0 {
        let cl = state.cursor_line;
        let prev_len = byte_length(state.lines[cl - 1].as_str());
        join_with_next(state, cl - 1);
        state.cursor_line = cl - 1;
        state.cursor_col = prev_len;
        true
    } else {
        false
    }
}


/// A string holding one newline.
fn newline_string() -> (r: String)
    ensures
        r@ == seq!['\n'],
{
    proof {
        reveal_strlit("\n");
    }
    String::from_str("\n")
}

// ── Where the cursor lands ──────────────────────────────────────────

/// Splicing at character boundaries keeps both ends of the insertion on
/// character boundaries.
pub proof fn lemma_splice_boundaries(line: Seq<u8>, a: int, b: int, ins: Seq<char>, nl: Seq<u8>)
    requires
        valid_utf8(line),
        0 <= a <= b <= line.len(),
        is_char_boundary(line, a),
        is_char_boundary(line, b),
        nl == splice(line, a, b, encode_utf8(ins)),
    ensures
        is_char_boundary(nl, a),
        is_char_boundary(nl, a + encode_utf8(ins).len()),
        nl.len() == line.len() - (b - a) + encode_utf8(ins).len(),
{
    broadcast use encode_utf8_decode_utf8, decode_utf8_encode_utf8, encode_utf8_valid_utf8;

    let s = decode_utf8(line);
    assert(encode_utf8(s) == line);
    valid_utf8_split(line, a);
    valid_utf8_split(line, b);
    assert(line.take(a) =~= line.subrange(0, a));
    assert(line.skip(b) =~= line.subrange(b, line.len() as int));
    let x = decode_utf8(line.take(a));
    let y = decode_utf8(line.skip(b));
    assert(encode_utf8(x) == line.take(a));
    assert(encode_utf8(y) == line.skip(b));
    lemma_encode_concat(x, ins);
    lemma_encode_concat(x + ins, y);
    assert(encode_utf8(x + ins + y) =~= nl);
    lemma_splice_chars(s, a, b, ins, x + ins + y);
}

/// The end of line `i` is a boundary of `i` joined with the next line.
proof fn lemma_merge_boundary(ls: Seq<Seq<u8>>, i: int)
    requires
        0 <= i,
        i + 1 < ls.len(),
        valid_utf8(ls[i]),
        valid_utf8(ls[i + 1]),
    ensures
        is_char_boundary(merge_at(ls, i)[i], ls[i].len() as int),
        merge_at(ls, i)[i].len() == ls[i].len() + ls[i + 1].len(),
{
    broadcast use encode_utf8_decode_utf8, decode_utf8_encode_utf8, encode_utf8_valid_utf8;

    let x = decode_utf8(ls[i]);
    let y = decode_utf8(ls[i + 1]);
    lemma_encode_concat(x, y);
    lemma_boundary_concat(x, y);
    assert(merge_at(ls, i)[i] == ls[i] + ls[i + 1]);
}

/// Line `i`'s bytes, read through `line_bytes`.
pub proof fn lemma_lb_index_pub(ls: Seq<String>, i: int)
    requires
        0 <= i < ls.len(),
    ensures
        line_bytes(ls)[i] == lb(ls[i]),
        line_bytes(ls).len() == ls.len(),
        valid_utf8(lb(ls[i])),
{
    lemma_lb_index(ls, i);
}

proof fn lemma_lb_index(ls: Seq<String>, i: int)
    requires
        0 <= i < ls.len(),
    ensures
        line_bytes(ls)[i] == lb(ls[i]),
        line_bytes(ls).len() == ls.len(),
        valid_utf8(lb(ls[i])),
{
    broadcast use encode_utf8_valid_utf8;

}

pub proof fn lemma_insert_character_ok(o: EditorState, n: EditorState, ch: Seq<char>)
    requires
        cursor_ok(o),
        after_insert_character(o, n, ch),
    ensures
        cursor_ok(n),
{
    let cl = o.cursor_line as int;
    lemma_lb_index(o.lines@, cl);
    let line = lb(o.lines@[cl]);
    let nl = splice(line, o.cursor_col as int, o.cursor_col as int, encode_utf8(ch));
    lemma_splice_boundaries(line, o.cursor_col as int, o.cursor_col as int, ch, nl);
    assert(line_bytes(n.lines@).len() == line_bytes(o.lines@).len());
    lemma_lb_index(n.lines@, cl);
}

pub proof fn lemma_backspace_ok(o: EditorState, n: EditorState, r: bool)
    requires
        cursor_ok(o),
        after_handle_backspace(o, n, r),
    ensures
        cursor_ok(n),
{
    let cl = o.cursor_line as int;
    let col = o.cursor_col as int;
    lemma_lb_index(o.lines@, cl);
    if col > 0 {
        let line = lb(o.lines@[cl]);
        let g = last_grapheme_len(decode_utf8(line.take(col)));
        assert(encode_utf8(Seq::<char>::empty()) =~= Seq::<u8>::empty());
        lemma_splice_boundaries(line, col - g, col, Seq::empty(), splice(line, col - g, col, Seq::empty()));
        assert(line_bytes(n.lines@).len() == line_bytes(o.lines@).len());
        lemma_lb_index(n.lines@, cl);
    } else if cl > 0 {
        lemma_lb_index(o.lines@, cl - 1);
        lemma_merge_boundary(line_bytes(o.lines@), cl - 1);
        assert(line_bytes(n.lines@).len() == line_bytes(o.lines@).len() - 1);
        lemma_lb_index(n.lines@, cl - 1);
    }
}

/// The state after a forward delete that reports `r`.
pub open spec fn after_handle_forward_delete(o: EditorState, n: EditorState, r: bool) -> bool {
    &&& ({
        let cl = o.cursor_line as int;
        let col = o.cursor_col as int;
        let line = line_or_empty(o.lines@, cl);
        let g = first_grapheme_len(decode_utf8(line.skip(col)));
        &&& r == (col < line.len() || cl < o.lines@.len() - 1)
        &&& col < line.len() ==> 0 < g && col + g <= line.len() && is_char_boundary(line, col + g)
            && line_bytes(n.lines@) == line_bytes(o.lines@).update(cl, splice(line, col, col + g, Seq::empty()))
        &&& col >= line.len() && cl < o.lines@.len() - 1 ==> line_bytes(
            n.lines@,
        ) == merge_at(line_bytes(o.lines@), cl)
        &&& !r ==> n == o
    })
    &&& n.cursor_line == o.cursor_line
    &&& n.cursor_col == o.cursor_col
}

/// Delete the grapheme at the cursor; at the end of a line, join the next
/// line onto it. Whether anything changed.
pub fn handle_forward_delete(state: &mut EditorState) -> (r: bool)
    requires
        old(state).lines@.len() > 0,
        old(state).cursor_line < old(state).lines@.len() && old(state).cursor_col < lb(
            old(state).lines@[old(state).cursor_line as int],
        ).len() ==> is_char_boundary(
            lb(old(state).lines@[old(state).cursor_line as int]),
            old(state).cursor_col as int,
        ),
    ensures
        after_handle_forward_delete(*old(state), *final(state), r),
{
    let cl = state.cursor_line;
    let col = state.cursor_col;
    let len = byte_length(state.current_line());
    if col < len {
        let g = first_grapheme_at(state.lines[cl].as_str(), col);
        let new_line = cut_str(state.lines[cl].as_str(), col, col + g);
        proof {
            lemma_line_bytes_update(state.lines@, cl as int, new_line);
        }
        state.lines[cl] = new_line;
        true
    } else if cl < state.lines.len() - 1 {
        join_with_next(state, cl);
        true
    } else {
        false
    }
}

pub proof fn lemma_forward_delete_ok(o: EditorState, n: EditorState, r: bool)
    requires
        cursor_ok(o),
        after_handle_forward_delete(o, n, r),
    ensures
        cursor_ok(n),
{
    let cl = o.cursor_line as int;
    let col = o.cursor_col as int;
    lemma_lb_index(o.lines@, cl);
    let line = lb(o.lines@[cl]);
    if col < line.len() {
        let g = first_grapheme_len(decode_utf8(line.skip(col)));
        assert(encode_utf8(Seq::<char>::empty()) =~= Seq::<u8>::empty());
        lemma_splice_boundaries(line, col, col + g, Seq::empty(), splice(line, col, col + g, Seq::empty()));
        assert(line_bytes(n.lines@).len() == line_bytes(o.lines@).len());
        lemma_lb_index(n.lines@, cl);
    } else if cl < o.lines@.len() - 1 {
        lemma_lb_index(o.lines@, cl + 1);
        lemma_merge_boundary(line_bytes(o.lines@), cl);
        assert(line_bytes(n.lines@).len() == line_bytes(o.lines@).len() - 1);
        lemma_lb_index(n.lines@, cl);
    }
}

/// The state after splitting the cursor line.
pub open spec fn after_add_new_line(o: EditorState, n: EditorState) -> bool {
    &&& ({
        let cl = o.cursor_line as int;
        let line = lb(o.lines@[cl]);
        let m = min(o.cursor_col as int, line.len() as int);
        line_bytes(n.lines@) == line_bytes(o.lines@).update(
            cl,
            line.take(m),
        ).insert(cl + 1, line.skip(m))
    })
    &&& n.cursor_line == o.cursor_line + 1
    &&& n.cursor_col == 0
}

/// Split the cursor line at the cursor; the cursor moves to the start of
/// the new line.
pub fn add_new_line(state: &mut EditorState)
    requires
        old(state).cursor_line < old(state).lines@.len(),
        col_ok(old(state).lines@[old(state).cursor_line as int], old(state).cursor_col as int),
    ensures
        after_add_new_line(*old(state), *final(state)),
{
    let cl = state.cursor_line;
    let _n = state.lines.len();
    let m = clamp_col(state.lines[cl].as_str(), state.cursor_col);
    let (before, after) = split_at_byte(state.lines[cl].as_str(), m);
    let ghost lines0 = state.lines@;
    proof {
        lemma_line_bytes_update(lines0, cl as int, before);
        lemma_line_bytes_insert(lines0.update(cl as int, before), cl + 1, after);
    }
    state.lines[cl] = before;
    state.lines.insert(cl + 1, after);
    state.cursor_line = cl + 1;
    state.cursor_col = 0;
}

/// The state after deleting to the end of the line, `r` deleted.
pub open spec fn after_delete_to_end_of_line(o: EditorState, n: EditorState, r: Seq<char>) -> bool {
    &&& ({
        let cl = o.cursor_line as int;
        let col = o.cursor_col as int;
        let line = line_or_empty(o.lines@, cl);
        &&& col < line.len() ==> encode_utf8(r) == line.skip(col) && line_bytes(
            n.lines@,
        ) == line_bytes(o.lines@).update(cl, line.take(col))
        &&& col >= line.len() && cl < o.lines@.len() - 1 ==> r == seq!['\n']
            && line_bytes(n.lines@) == merge_at(line_bytes(o.lines@), cl)
        &&& col >= line.len() && cl >= o.lines@.len() - 1 ==> r.len() == 0
            && n == o
    })
    &&& n.cursor_line == o.cursor_line
    &&& n.cursor_col == o.cursor_col
}

/// Delete from the cursor to the end of the line; at the end of a line,
/// join the next line onto it. The deleted text (a newline for a join).
pub fn delete_to_end_of_line(state: &mut EditorState) -> (r: String)
    requires
        old(state).lines@.len() > 0,
        old(state).cursor_line < old(state).lines@.len() && old(state).cursor_col < lb(
            old(state).lines@[old(state).cursor_line as int],
        ).len() ==> is_char_boundary(
            lb(old(state).lines@[old(state).cursor_line as int]),
            old(state).cursor_col as int,
        ),
    ensures
        after_delete_to_end_of_line(*old(state), *final(state), r@),
{
    let cl = state.cursor_line;
    let col = state.cursor_col;
    let len = byte_length(state.current_line());
    if col < len {
        let (before, after) = split_at_byte(state.lines[cl].as_str(), col);
        proof {
            lemma_line_bytes_update(state.lines@, cl as int, before);
        }
        state.lines[cl] = before;
        after
    } else if cl < state.lines.len() - 1 {
        join_with_next(state, cl);
        newline_string()
    } else {
        String::new()
    }
}

/// The state after deleting to the start of the line, `r` deleted.
pub open spec fn after_delete_to_start_of_line(o: EditorState, n: EditorState, r: Seq<char>) -> bool {
    &&& o.cursor_col > 0 ==> ({
        let cl = o.cursor_line as int;
        let col = o.cursor_col as int;
        let line = lb(o.lines@[cl]);
        &&& encode_utf8(r) == line.take(col)
        &&& line_bytes(n.lines@) == line_bytes(o.lines@).update(
            cl,
            line.skip(col),
        )
        &&& n.cursor_line == cl
        &&& n.cursor_col == 0
    })
    &&& o.cursor_col == 0 && o.cursor_line > 0 ==> ({
        let cl = o.cursor_line as int;
        &&& r == seq!['\n']
        &&& line_bytes(n.lines@) == merge_at(line_bytes(o.lines@), cl - 1)
        &&& n.cursor_line == cl - 1
        &&& n.cursor_col == lb(o.lines@[cl - 1]).len()
    })
    &&& o.cursor_col == 0 && o.cursor_line == 0 ==> r.len() == 0 && n == o
}

/// Delete from the start of the line to the cursor; at the start of a
/// line, join the line onto the previous one. The deleted text (a newline
/// for a join).
pub fn delete_to_start_of_line(state: &mut EditorState) -> (r: String)
    requires
        old(state).cursor_col > 0 ==> old(state).cursor_line < old(state).lines@.len()
            && col_at_boundary(
            old(state).lines@[old(state).cursor_line as int],
            old(state).cursor_col as int,
        ),
        old(state).cursor_col == 0 && old(state).cursor_line > 0 ==> old(state).cursor_line < old(state).lines@.len(),
    ensures
        after_delete_to_start_of_line(*old(state), *final(state), r@),
{
    let cl = state.cursor_line;
    let col = state.cursor_col;
    if col > 0 {
        let (before, after) = split_at_byte(state.lines[cl].as_str(), col);
        proof {
            lemma_line_bytes_update(state.lines@, cl as int, after);
        }
        state.lines[cl] = after;
        state.cursor_col = 0;
        before
    } else if cl > 0 {
        let prev_len = byte_length(state.lines[cl - 1].as_str());
        join_with_next(state, cl - 1);
        state.cursor_line = cl - 1;
        state.cursor_col = prev_len;
        newline_string()
    } else {
        String::new()
    }
}

/// The state after deleting the word before the cursor, `r` deleted.
pub open spec fn after_delete_word_backwards(o: EditorState, n: EditorState, r: Seq<char>) -> bool {
    &&& o.cursor_col > 0 ==> ({
        let cl = o.cursor_line as int;
        let col = o.cursor_col as int;
        let line = lb(o.lines@[cl]);
        let from = word_back_col(line, col, false);
        &&& from <= col && is_char_boundary(line, from)
        &&& encode_utf8(r) == line.subrange(from, col)
        &&& line_bytes(n.lines@) == line_bytes(o.lines@).update(
            cl,
            splice(line, from, col, Seq::empty()),
        )
        &&& n.cursor_line == cl
        &&& n.cursor_col == from
    })
    &&& o.cursor_col == 0 && o.cursor_line > 0 ==> ({
        let cl = o.cursor_line as int;
        &&& r == seq!['\n']
        &&& line_bytes(n.lines@) == merge_at(line_bytes(o.lines@), cl - 1)
        &&& n.cursor_line == cl - 1
        &&& n.cursor_col == lb(o.lines@[cl - 1]).len()
    })
    &&& o.cursor_col == 0 && o.cursor_line == 0 ==> r.len() == 0 && n == o
}

/// Delete the word before the cursor (as a backward word move finds it);
/// at the start of a line, join the line onto the previous one. The
/// deleted text (a newline for a join).
pub fn delete_word_backwards(state: &mut EditorState) -> (r: String)
    requires
        old(state).cursor_col > 0 ==> old(state).cursor_line < old(state).lines@.len()
            && col_at_boundary(
            old(state).lines@[old(state).cursor_line as int],
            old(state).cursor_col as int,
        ),
        old(state).cursor_col == 0 && old(state).cursor_line > 0 ==> old(state).cursor_line < old(state).lines@.len(),
    ensures
        after_delete_word_backwards(*old(state), *final(state), r@),
{
    let cl = state.cursor_line;
    let old_col = state.cursor_col;
    if old_col == 0 {
        if cl > 0 {
            let prev_len = byte_length(state.lines[cl - 1].as_str());
            join_with_next(state, cl - 1);
            state.cursor_line = cl - 1;
            state.cursor_col = prev_len;
            return newline_string();
        }
        return String::new();
    }
    let mut temp_pref: Option<usize> = None;
    move_word_backwards(state, &mut temp_pref);
    let delete_from = state.cursor_col;
    proof {
        lemma_boundary_ends(state.lines@[cl as int]@);
    }
    let deleted = substring_bytes(state.lines[cl].as_str(), delete_from, old_col);
    let new_line = cut_str(state.lines[cl].as_str(), delete_from, old_col);
    proof {
        lemma_line_bytes_update(state.lines@, cl as int, new_line);
    }
    state.lines[cl] = new_line;
    state.cursor_col = delete_from;
    deleted
}

/// The state after deleting the word after the cursor, `r` deleted.
pub open spec fn after_delete_word_forwards(o: EditorState, n: EditorState, r: Seq<char>) -> bool {
    &&& ({
        let cl = o.cursor_line as int;
        let col = o.cursor_col as int;
        let line = line_or_empty(o.lines@, cl);
        let to = word_fwd_col(line, col, false);
        &&& col < line.len() ==> col <= to <= line.len() && is_char_boundary(line, to) && encode_utf8(r)
            == line.subrange(col, to) && line_bytes(n.lines@) == line_bytes(o.lines@).update(
            cl,
            splice(line, col, to, Seq::empty()),
        )
        &&& col >= line.len() && cl < o.lines@.len() - 1 ==> r == seq!['\n']
            && line_bytes(n.lines@) == merge_at(line_bytes(o.lines@), cl)
        &&& col >= line.len() && cl >= o.lines@.len() - 1 ==> r.len() == 0
            && n == o
    })
    &&& n.cursor_line == o.cursor_line
    &&& n.cursor_col == o.cursor_col
}

/// Delete the word after the cursor (as a forward word move finds it); at
/// the end of a line, join the next line onto it. The deleted text (a
/// newline for a join).
pub fn delete_word_forwards(state: &mut EditorState) -> (r: String)
    requires
        old(state).lines@.len() > 0,
        old(state).cursor_line < old(state).lines@.len() && old(state).cursor_col < lb(
            old(state).lines@[old(state).cursor_line as int],
        ).len() ==> is_char_boundary(
            lb(old(state).lines@[old(state).cursor_line as int]),
            old(state).cursor_col as int,
        ),
    ensures
        after_delete_word_forwards(*old(state), *final(state), r@),
{
    let cl = state.cursor_line;
    let old_col = state.cursor_col;
    let len = byte_length(state.current_line());
    if old_col >= len {
        if cl < state.lines.len() - 1 {
            join_with_next(state, cl);
            return newline_string();
        }
        return String::new();
    }
    let mut temp_pref: Option<usize> = None;
    move_word_forwards(state, &mut temp_pref);
    let delete_to = state.cursor_col;
    state.cursor_col = old_col;
    let deleted = substring_bytes(state.lines[cl].as_str(), old_col, delete_to);
    let new_line = cut_str(state.lines[cl].as_str(), old_col, delete_to);
    proof {
        lemma_line_bytes_update(state.lines@, cl as int, new_line);
    }
    state.lines[cl] = new_line;
    deleted
}


/// The lines `text` splits into, after normalizing line endings.
pub open spec fn text_pieces(text: Seq<char>) -> Seq<Seq<char>> {
    split_on(normalize_newlines(text), '\n')
}

/// The UTF-8 encodings of `ps`.
pub open spec fn enc_all(ps: Seq<Seq<char>>) -> Seq<Seq<u8>> {
    ps.map_values(|p: Seq<char>| encode_utf8(p))
}

/// The lines (as bytes) from line `k` on, empty past the end.
pub open spec fn lines_from(ls: Seq<String>, k: int) -> Seq<Seq<u8>> {
    if k <= ls.len() {
        line_bytes(ls).skip(k)
    } else {
        Seq::empty()
    }
}

/// The lines after inserting the pieces `ps` (at least two) at byte `m` of
/// line `cl`: the first piece ends that line and the last one starts what
/// followed the cursor.
pub open spec fn insert_lines(ls: Seq<String>, cl: int, m: int, ps: Seq<Seq<char>>) -> Seq<Seq<u8>> {
    let line = line_or_empty(ls, cl);
    let n = ps.len() as int;
    Seq::new(cl as nat, |i: int| line_or_empty(ls, i)) + seq![line.take(m) + encode_utf8(ps[0])]
        + enc_all(ps.subrange(1, n - 1)) + seq![encode_utf8(ps[n - 1]) + line.skip(m)]
        + lines_from(ls, cl + 1)
}

/// Line `i` of `lines`, or the empty string when there is none.
fn line_at(lines: &Vec<String>, i: usize) -> (r: &str)
    ensures
        encode_utf8(r@) == line_or_empty(lines@, i as int),
{
    if i < lines.len() {
        lines[i].as_str()
    } else {
        proof {
            reveal_strlit("");
        }
        ""
    }
}

/// The state after replacing the text with `text`.
pub open spec fn after_set_text_internal(o: EditorState, n: EditorState, text: Seq<char>) -> bool {
    &&& string_views(n.lines@) == text_pieces(text)
    &&& n.lines@.len() >= 1
    &&& n.cursor_line == n.lines@.len() - 1
    &&& n.cursor_col == lb(n.lines@.last()).len()
}

/// Replace the text: split it at newlines (after normalizing line
/// endings) and put the cursor at the end.
pub fn set_text_internal(state: &mut EditorState, text: &str)
    ensures
        after_set_text_internal(*old(state), *final(state), text@),
{
    let v = normalized_chars(text);
    let lines = split_chars(&v, '\n');
    proof {
        lemma_split_on_nonempty(v@, '\n');
    }
    state.lines = if lines.len() == 0 {
        let mut one: Vec<String> = Vec::new();
        one.push(String::new());
        one
    } else {
        lines
    };
    let n = state.lines.len();
    state.cursor_line = n - 1;
    state.cursor_col = byte_length(state.lines[n - 1].as_str());
}

/// The state after inserting `text` at the cursor.
pub open spec fn after_insert_text_at_cursor(o: EditorState, n: EditorState, text: Seq<char>) -> bool {
    &&& ({
        let ps = text_pieces(text);
        let cl = o.cursor_line as int;
        let col = o.cursor_col as int;
        let line = line_or_empty(o.lines@, cl);
        let m = min(col, line.len() as int);
        &&& ps.len() >= 1
        &&& ps.len() == 1 ==> line_bytes(n.lines@) == line_bytes(o.lines@).update(
            cl,
            splice(line, m, m, encode_utf8(ps[0])),
        ) && n.cursor_line == cl && n.cursor_col == col + byte_len(ps[0])
        &&& ps.len() > 1 ==> line_bytes(n.lines@) == insert_lines(o.lines@, cl, m, ps)
            && n.cursor_line == cl + ps.len() - 1
            && n.cursor_col == byte_len(ps[ps.len() - 1])
    })
}

/// Insert `text` (line endings normalized) at the cursor; a text of several
/// lines splits the cursor line around it, and the cursor ends after it.
pub fn insert_text_at_cursor(state: &mut EditorState, text: &str)
    requires
        ({
            let ps = text_pieces(text@);
            let cl = old(state).cursor_line as int;
            let col = old(state).cursor_col as int;
            &&& ps.len() == 1 ==> cl < old(state).lines@.len() && col_ok(old(state).lines@[cl], col)
                && (col <= lb(old(state).lines@[cl]).len() || col + byte_len(ps[0]) <= usize::MAX)
            &&& ps.len() > 1 ==> (cl < old(state).lines@.len() ==> col_ok(old(state).lines@[cl], col))
                && (cl < old(state).lines@.len() || cl + ps.len() - 1 <= usize::MAX)
        }),
    ensures
        after_insert_text_at_cursor(*old(state), *final(state), text@),
{
    let v = normalized_chars(text);
    let parts = split_chars(&v, '\n');
    let ghost ps = string_views(parts@);
    proof {
        lemma_split_on_nonempty(v@, '\n');
    }
    let np = parts.len();
    let cl = state.cursor_line;
    let col = state.cursor_col;
    if np == 1 {
        proof {
            lemma_split_on_single(v@, '\n');
        }
        let normalized = string_from_chars(v.as_slice());
        let m = clamp_col(state.lines[cl].as_str(), col);
        let new_line = splice_str(state.lines[cl].as_str(), m, m, normalized.as_str());
        let n = byte_length(normalized.as_str());
        let total = byte_length(new_line.as_str());
        proof {
            lemma_line_bytes_update(state.lines@, cl as int, new_line);
        }
        state.lines[cl] = new_line;
        state.cursor_col = col + n;
        return;
    }
    let ghost old_lines = state.lines@;
    let ghost line = line_or_empty(old_lines, cl as int);
    let (before, after) = {
        let current = line_at(&state.lines, cl);
        let m = clamp_col(current, col);
        split_at_byte(current, m)
    };
    let ghost m = encode_utf8(before@).len() as int;
    let mut new_lines: Vec<String> = Vec::new();
    let mut i: usize = 0;
    while i < cl
        invariant
            i <= cl,
            state.lines@ == old_lines,
            line_bytes(new_lines@) == Seq::new(i as nat, |j: int| line_or_empty(old_lines, j)),
        decreases cl - i,
    {
        let s = if i < state.lines.len() {
            state.lines[i].clone()
        } else {
            String::new()
        };
        assert(lb(s) == line_or_empty(old_lines, i as int));
        proof {
            lemma_line_bytes_push(new_lines@, s);
        }
        new_lines.push(s);
        i = i + 1;
        assert(line_bytes(new_lines@) =~= Seq::new(i as nat, |j: int| line_or_empty(old_lines, j)));
    }
    let ghost a = line_bytes(new_lines@);
    let first = concat(before.as_str(), parts[0].as_str());
    new_lines.push(first);
    proof {
        lemma_encode_concat(before@, ps[0]);
        assert(line_bytes(new_lines@) =~= a + seq![line.take(m) + encode_utf8(ps[0])]);
    }
    let ghost b = line_bytes(new_lines@);
    let mut j: usize = 1;
    while j < np - 1
        invariant
            np == parts@.len(),
            np > 1,
            ps == string_views(parts@),
            1 <= j <= np - 1,
            line_bytes(new_lines@) == b + enc_all(ps.subrange(1, j as int)),
        decreases np - j,
    {
        let s = parts[j].clone();
        proof {
            lemma_line_bytes_push(new_lines@, s);
            assert(ps.subrange(1, j + 1) =~= ps.subrange(1, j as int).push(ps[j as int]));
            assert(enc_all(ps.subrange(1, j + 1)) =~= enc_all(ps.subrange(1, j as int)).push(encode_utf8(ps[j as int])));
        }
        new_lines.push(s);
        j = j + 1;
        assert(line_bytes(new_lines@) =~= b + enc_all(ps.subrange(1, j as int)));
    }
    let ghost c = line_bytes(new_lines@);
    let last = concat(parts[np - 1].as_str(), after.as_str());
    new_lines.push(last);
    proof {
        lemma_encode_concat(ps[np - 1], after@);
        assert(line_bytes(new_lines@) =~= c + seq![encode_utf8(ps[np - 1]) + line.skip(m)]);
    }
    let ghost d = line_bytes(new_lines@);
    let n = state.lines.len();
    let mut k: usize = cl + 1;
    if k <= n {
        assert(line_bytes(old_lines).subrange(cl + 1, k as int) =~= Seq::<Seq<u8>>::empty());
        assert(d + Seq::<Seq<u8>>::empty() =~= d);
        while k < n
            invariant
                cl + 1 <= k <= n,
                n == old_lines.len(),
                state.lines@ == old_lines,
                line_bytes(new_lines@) == d + line_bytes(old_lines).subrange(cl + 1, k as int),
            decreases n - k,
        {
            let s = state.lines[k].clone();
            proof {
                lemma_line_bytes_push(new_lines@, s);
            }
            new_lines.push(s);
            k = k + 1;
            assert(line_bytes(new_lines@) =~= d + line_bytes(old_lines).subrange(cl + 1, k as int));
        }
        assert(line_bytes(old_lines).subrange(cl + 1, n as int) =~= lines_from(old_lines, cl + 1));
    } else {
        assert(d + lines_from(old_lines, cl + 1) =~= d);
    }
    proof {
        assert(line_bytes(new_lines@) =~= insert_lines(old_lines, cl as int, m, ps));
    }
    let total_lines = new_lines.len();
    proof {
        if cl < n {
            assert(new_lines@.len() == cl + np + (n - cl - 1));
        }
    }
    state.lines = new_lines;
    state.cursor_line = cl + (np - 1);
    state.cursor_col = byte_length(parts[np - 1].as_str());
}

pub proof fn lemma_add_new_line_ok(o: EditorState, n: EditorState)
    requires
        cursor_ok(o),
        after_add_new_line(o, n),
    ensures
        cursor_ok(n),
{
    let cl = o.cursor_line as int;
    lemma_lb_index(o.lines@, cl);
    assert(line_bytes(n.lines@).len() == line_bytes(o.lines@).len() + 1);
    lemma_lb_index(n.lines@, cl + 1);
    is_char_boundary_start_end_of_seq(lb(n.lines@[cl + 1]));
}

pub proof fn lemma_delete_to_end_ok(o: EditorState, n: EditorState, r: Seq<char>)
    requires
        cursor_ok(o),
        after_delete_to_end_of_line(o, n, r),
    ensures
        cursor_ok(n),
{
    let cl = o.cursor_line as int;
    let col = o.cursor_col as int;
    lemma_lb_index(o.lines@, cl);
    let line = lb(o.lines@[cl]);
    if col < line.len() {
        assert(line.take(col) == splice(line, col, line.len() as int, Seq::empty()));
        assert(encode_utf8(Seq::<char>::empty()) =~= Seq::<u8>::empty());
        is_char_boundary_start_end_of_seq(line);
        lemma_splice_boundaries(line, col, line.len() as int, Seq::empty(), line.take(col));
        assert(line_bytes(n.lines@).len() == line_bytes(o.lines@).len());
        lemma_lb_index(n.lines@, cl);
    } else if cl < o.lines@.len() - 1 {
        lemma_lb_index(o.lines@, cl + 1);
        lemma_merge_boundary(line_bytes(o.lines@), cl);
        assert(line_bytes(n.lines@).len() == line_bytes(o.lines@).len() - 1);
        lemma_lb_index(n.lines@, cl);
    }
}

pub proof fn lemma_delete_to_start_ok(o: EditorState, n: EditorState, r: Seq<char>)
    requires
        cursor_ok(o),
        after_delete_to_start_of_line(o, n, r),
    ensures
        cursor_ok(n),
{
    let cl = o.cursor_line as int;
    let col = o.cursor_col as int;
    lemma_lb_index(o.lines@, cl);
    if col > 0 {
        assert(line_bytes(n.lines@).len() == line_bytes(o.lines@).len());
        lemma_lb_index(n.lines@, cl);
        is_char_boundary_start_end_of_seq(lb(n.lines@[cl]));
    } else if cl > 0 {
        lemma_lb_index(o.lines@, cl - 1);
        lemma_merge_boundary(line_bytes(o.lines@), cl - 1);
        assert(line_bytes(n.lines@).len() == line_bytes(o.lines@).len() - 1);
        lemma_lb_index(n.lines@, cl - 1);
    }
}

pub proof fn lemma_delete_word_backwards_ok(o: EditorState, n: EditorState, r: Seq<char>)
    requires
        cursor_ok(o),
        after_delete_word_backwards(o, n, r),
    ensures
        cursor_ok(n),
{
    let cl = o.cursor_line as int;
    let col = o.cursor_col as int;
    lemma_lb_index(o.lines@, cl);
    if col > 0 {
        let line = lb(o.lines@[cl]);
        let from = word_back_col(line, col, false);
        assert(encode_utf8(Seq::<char>::empty()) =~= Seq::<u8>::empty());
        lemma_splice_boundaries(line, from, col, Seq::empty(), splice(line, from, col, Seq::empty()));
        assert(line_bytes(n.lines@).len() == line_bytes(o.lines@).len());
        lemma_lb_index(n.lines@, cl);
    } else if cl > 0 {
        lemma_lb_index(o.lines@, cl - 1);
        lemma_merge_boundary(line_bytes(o.lines@), cl - 1);
        assert(line_bytes(n.lines@).len() == line_bytes(o.lines@).len() - 1);
        lemma_lb_index(n.lines@, cl - 1);
    }
}

pub proof fn lemma_delete_word_forwards_ok(o: EditorState, n: EditorState, r: Seq<char>)
    requires
        cursor_ok(o),
        after_delete_word_forwards(o, n, r),
    ensures
        cursor_ok(n),
{
    let cl = o.cursor_line as int;
    let col = o.cursor_col as int;
    lemma_lb_index(o.lines@, cl);
    let line = lb(o.lines@[cl]);
    if col < line.len() {
        let to = word_fwd_col(line, col, false);
        assert(encode_utf8(Seq::<char>::empty()) =~= Seq::<u8>::empty());
        lemma_splice_boundaries(line, col, to, Seq::empty(), splice(line, col, to, Seq::empty()));
        assert(line_bytes(n.lines@).len() == line_bytes(o.lines@).len());
        lemma_lb_index(n.lines@, cl);
    } else if cl < o.lines@.len() - 1 {
        lemma_lb_index(o.lines@, cl + 1);
        lemma_merge_boundary(line_bytes(o.lines@), cl);
        assert(line_bytes(n.lines@).len() == line_bytes(o.lines@).len() - 1);
        lemma_lb_index(n.lines@, cl);
    }
}

/// Where the text `yanked`, ending at (`cl`, `col`), starts, as (line,
/// byte offset); `None` when the text there is not `yanked`.
pub open spec fn yank_start(lines: Seq<String>, cl: int, col: int, yanked: Seq<char>) -> Option<(int, int)> {
    let ys = split_on(yanked, '\n');
    let n = ys.len() as int;
    if cl < n - 1 {
        None
    } else if n <= 1 {
        let line = line_or_empty(lines, cl);
        let y = encode_utf8(yanked);
        if col < y.len() {
            None
        } else {
            let start_col = col - y.len();
            if col <= line.len() && is_char_boundary(line, start_col) && is_char_boundary(line, col)
                && line.subrange(start_col, col) == y {
                Some((cl, start_col))
            } else {
                None
            }
        }
    } else {
        let first = line_or_empty(lines, cl - (n - 1));
        let last = line_or_empty(lines, cl);
        let fi = encode_utf8(ys[0]);
        let li = encode_utf8(ys[n - 1]);
        if first.len() >= fi.len() && first.skip(first.len() - fi.len()) == fi && col == li.len()
            && col <= last.len() && is_char_boundary(last, col) && last.take(col) == li {
            Some((cl - (n - 1), first.len() - fi.len()))
        } else {
            None
        }
    }
}

/// The state after removing `yanked` before the cursor, reporting `r`.
pub open spec fn after_delete_yanked_text(o: EditorState, n: EditorState, yanked: Seq<char>, r: bool) -> bool {
    &&& ({
        let cl = o.cursor_line as int;
        let col = o.cursor_col as int;
        let ls = o.lines@;
        match yank_start(ls, cl, col, yanked) {
            Some((sl, sc)) => {
                &&& r
                &&& line_bytes(n.lines@) == line_bytes(ls).take(sl) + seq![
                    line_or_empty(ls, sl).take(sc) + line_or_empty(ls, cl).skip(col)]
                    + line_bytes(ls).skip(cl + 1)
                &&& n.cursor_line == sl
                &&& n.cursor_col == sc
            },
            None => !r && n == o,
        }
    })
}

/// Two valid pieces joined: the end of the first is a boundary.
proof fn lemma_join_boundary(x: Seq<u8>, y: Seq<u8>)
    requires
        valid_utf8(x),
        valid_utf8(y),
    ensures
        is_char_boundary(x + y, x.len() as int),
        valid_utf8(x + y),
{
    broadcast use encode_utf8_decode_utf8, decode_utf8_encode_utf8, encode_utf8_valid_utf8;

    let a = decode_utf8(x);
    let b = decode_utf8(y);
    lemma_encode_concat(a, b);
    lemma_boundary_concat(a, b);
}

pub proof fn lemma_set_text_ok(o: EditorState, n: EditorState, text: Seq<char>)
    requires
        after_set_text_internal(o, n, text),
    ensures
        cursor_ok(n),
{
    broadcast use encode_utf8_valid_utf8;

    let k = n.lines@.len() - 1;
    assert(n.lines@.last() == n.lines@[k]);
    is_char_boundary_start_end_of_seq(lb(n.lines@[k]));
}

pub proof fn lemma_insert_text_ok(o: EditorState, n: EditorState, text: Seq<char>)
    requires
        cursor_ok(o),
        after_insert_text_at_cursor(o, n, text),
    ensures
        cursor_ok(n),
{
    broadcast use encode_utf8_decode_utf8, decode_utf8_encode_utf8, encode_utf8_valid_utf8;

    let ps = text_pieces(text);
    let cl = o.cursor_line as int;
    let col = o.cursor_col as int;
    lemma_lb_index(o.lines@, cl);
    let line = lb(o.lines@[cl]);
    assert(line_or_empty(o.lines@, cl) == line);
    if ps.len() == 1 {
        lemma_splice_boundaries(line, col, col, ps[0], splice(line, col, col, encode_utf8(ps[0])));
        assert(line_bytes(n.lines@).len() == line_bytes(o.lines@).len());
        lemma_lb_index(n.lines@, cl);
    } else {
        let np = ps.len() as int;
        let nls = insert_lines(o.lines@, cl, col, ps);
        let a = Seq::new(cl as nat, |i: int| line_or_empty(o.lines@, i));
        let b = seq![line.take(col) + encode_utf8(ps[0])];
        let c = enc_all(ps.subrange(1, np - 1));
        let d = seq![encode_utf8(ps[np - 1]) + line.skip(col)];
        let e = lines_from(o.lines@, cl + 1);
        assert(nls == a + b + c + d + e);
        assert(e.len() == o.lines@.len() - cl - 1);
        assert(nls.len() == o.lines@.len() + np - 1);
        assert(nls[cl + np - 1] == d[0]);
        valid_utf8_split(line, col);
        assert(line.skip(col) =~= line.subrange(col, line.len() as int));
        lemma_join_boundary(encode_utf8(ps[np - 1]), line.skip(col));
        assert(line_bytes(n.lines@).len() == nls.len());
        lemma_lb_index(n.lines@, cl + np - 1);
        assert(ps.last() == ps[np - 1]);
    }
}

pub proof fn lemma_delete_yanked_ok(o: EditorState, n: EditorState, yanked: Seq<char>, r: bool)
    requires
        cursor_ok(o),
        after_delete_yanked_text(o, n, yanked, r),
    ensures
        cursor_ok(n),
{
    broadcast use encode_utf8_decode_utf8, decode_utf8_encode_utf8, encode_utf8_valid_utf8;

    let cl = o.cursor_line as int;
    let col = o.cursor_col as int;
    let ls = o.lines@;
    lemma_lb_index(ls, cl);
    match yank_start(ls, cl, col, yanked) {
        Some((sl, sc)) => {
            let ys = split_on(yanked, '\n');
            lemma_split_on_nonempty(yanked, '\n');
            let last = line_or_empty(ls, cl);
            let first = line_or_empty(ls, sl);
            lemma_lb_index(ls, sl);
            if ys.len() > 1 {
                let fi = encode_utf8(ys[0]);
                if fi.len() > 0 {
                    assert(first[sc] == first.skip(sc)[0]);
                    is_char_boundary_start_end_of_seq(fi);
                    is_char_boundary_iff_not_is_continuation_byte(fi, 0);
                    is_char_boundary_iff_not_is_continuation_byte(first, sc);
                } else {
                    is_char_boundary_start_end_of_seq(first);
                }
            }
            valid_utf8_split(first, sc);
            valid_utf8_split(last, col);
            assert(first.take(sc) =~= first.subrange(0, sc));
            assert(last.skip(col) =~= last.subrange(col, last.len() as int));
            lemma_join_boundary(first.take(sc), last.skip(col));
            let nl = first.take(sc) + last.skip(col);
            assert(line_bytes(n.lines@) == line_bytes(ls).take(sl) + seq![nl] + line_bytes(ls).skip(cl + 1));
            assert(line_bytes(n.lines@)[sl] == nl);
            assert(line_bytes(n.lines@).len() == n.lines@.len());
            assert(0 <= sl < n.lines@.len());
            lemma_lb_index(n.lines@, sl);
        },
        None => {},
    }
}

/// Remove `yanked`, which ends at the cursor, and put the cursor where it
/// started. Whether the text before the cursor was `yanked`.
pub fn delete_yanked_text(state: &mut EditorState, yanked: &str) -> (r: bool)
    requires
        yank_start(old(state).lines@, old(state).cursor_line as int, old(state).cursor_col as int, yanked@) is Some
            ==> old(state).cursor_line < old(state).lines@.len(),
    ensures
        after_delete_yanked_text(*old(state), *final(state), yanked@, r),
{
    let ys = split_chars(&chars_of(yanked), '\n');
    proof {
        lemma_split_on_nonempty(yanked@, '\n');
    }
    let n = ys.len();
    let end_line = state.cursor_line;
    let end_col = state.cursor_col;
    if end_line < n - 1 {
        return false;
    }
    let start_line = end_line - (n - 1);
    let ghost ls = state.lines@;
    if n == 1 {
        let ylen = byte_length(yanked);
        if end_col < ylen {
            return false;
        }
        let start_col = end_col - ylen;
        let ok = {
            let line = line_at(&state.lines, end_line);
            let lbytes = line.as_bytes();
            end_col <= lbytes.len() && line.is_char_boundary(start_col) && line.is_char_boundary(end_col)
                && occurs_at(lbytes, yanked.as_bytes(), start_col)
        };
        if !ok {
            return false;
        }
        let new_line = cut_str(state.lines[end_line].as_str(), start_col, end_col);
        proof {
            lemma_line_bytes_update(ls, end_line as int, new_line);
            assert(line_bytes(ls).update(end_line as int, lb(new_line)) =~= line_bytes(ls).take(
                end_line as int,
            ) + seq![lb(ls[end_line as int]).take(start_col as int) + lb(ls[end_line as int]).skip(end_col as int)]
                + line_bytes(ls).skip(end_line + 1));
        }
        state.lines[end_line] = new_line;
        state.cursor_line = end_line;
        state.cursor_col = start_col;
        return true;
    }
    let ghost yv = string_views(ys@);
    let ok = {
        let first = line_at(&state.lines, start_line);
        let last = line_at(&state.lines, end_line);
        let fb = first.as_bytes();
        let fi = ys[0].as_str().as_bytes();
        let lbt = last.as_bytes();
        let li = ys[n - 1].as_str().as_bytes();
        fb.len() >= fi.len() && occurs_at(fb, fi, fb.len() - fi.len()) && end_col == li.len()
            && end_col <= lbt.len() && last.is_char_boundary(end_col) && occurs_at(lbt, li, 0)
    };
    proof {
        let first = line_or_empty(ls, start_line as int);
        let last = line_or_empty(ls, end_line as int);
        let fi = encode_utf8(yv[0]);
        if ok {
            assert(first.subrange(first.len() - fi.len(), first.len() as int) =~= first.skip(first.len() - fi.len()));
            assert(last.subrange(0, end_col as int) =~= last.take(end_col as int));
        } else {
            if first.len() >= fi.len() && first.skip(first.len() - fi.len()) == fi {
                assert(first.subrange(first.len() - fi.len(), first.len() as int) =~= first.skip(first.len() - fi.len()));
            }
            if end_col <= last.len() {
                assert(last.subrange(0, end_col as int) =~= last.take(end_col as int));
            }
        }
    }
    if !ok {
        return false;
    }
    let first_line = state.lines[start_line].clone();
    let fl = byte_length(first_line.as_str());
    let fil = byte_length(ys[0].as_str());
    let start_col = fl - fil;
    proof {
        broadcast use encode_utf8_valid_utf8;

        let first = lb(first_line);
        let fi = encode_utf8(yv[0]);
        lemma_boundary_ends(first_line@);
        if fi.len() > 0 {
            lemma_boundary_ends(yv[0]);
            is_char_boundary_iff_not_is_continuation_byte(fi, 0);
            assert(first[start_col as int] == first.skip(start_col as int)[0]);
            is_char_boundary_iff_not_is_continuation_byte(first, start_col as int);
        }
        lemma_boundary_ends(ls[end_line as int]@);
    }
    let head = substring_bytes(first_line.as_str(), 0, start_col);
    let tail = {
        let last = state.lines[end_line].as_str();
        let ll = byte_length(last);
        substring_bytes(last, end_col, ll)
    };
    let new_line = concat(head.as_str(), tail.as_str());
    proof {
        lemma_encode_concat(head@, tail@);
        assert(lb(first_line).subrange(0, start_col as int) =~= lb(first_line).take(start_col as int));
        assert(lb(ls[end_line as int]).subrange(end_col as int, lb(ls[end_line as int]).len() as int)
            =~= lb(ls[end_line as int]).skip(end_col as int));
    }
    let count = end_line - start_line + 1;
    let mut removed: usize = 0;
    while removed < count
        invariant
            count == end_line - start_line + 1,
            end_line < ls.len(),
            removed <= count,
            line_bytes(state.lines@) == line_bytes(ls).take(start_line as int) + line_bytes(ls).skip(
                start_line + removed,
            ),
            state.lines@.len() == ls.len() - removed,
        decreases count - removed,
    {
        let ghost before_rm = state.lines@;
        state.lines.remove(start_line);
        proof {
            lemma_line_bytes_remove(before_rm, start_line as int);
        }
        removed = removed + 1;
        assert(line_bytes(state.lines@) =~= line_bytes(ls).take(start_line as int) + line_bytes(ls).skip(
            start_line + removed,
        ));
    }
    let ghost before_ins = state.lines@;
    state.lines.insert(start_line, new_line);
    proof {
        lemma_line_bytes_insert(before_ins, start_line as int, new_line);
        assert(line_bytes(state.lines@) =~= line_bytes(ls).take(start_line as int) + seq![lb(new_line)]
            + line_bytes(ls).skip(end_line + 1));
    }
    state.cursor_line = start_line;
    state.cursor_col = start_col;
    true
}

/// Joining line `a` before at least one more line puts a line feed
/// between them.
pub proof fn lemma_join_cons(a: Seq<char>, rest: Seq<Seq<char>>)
    requires
        rest.len() >= 1,
    ensures
        join_lines(seq![a] + rest) == a + seq!['\n'] + join_lines(rest),
    decreases rest.len(),
{
    let l = seq![a] + rest;
    if rest.len() == 1 {
        assert(l.drop_last() =~= seq![a]);
        assert(l.last() == rest[0]);
        assert(join_lines(l.drop_last()) == a);
        assert(join_lines(rest) == rest[0]);
        assert(join_lines(l) =~= a + seq!['\n'] + join_lines(rest));
    } else {
        assert(join_lines(rest) == join_lines(rest.drop_last()) + seq!['\n'] + rest.last());
        lemma_join_cons(a, rest.drop_last());
        assert(l.drop_last() =~= seq![a] + rest.drop_last());
        assert(l.last() == rest.last());
        assert(join_lines(l) =~= a + seq!['\n'] + join_lines(rest));
    }
}

/// Splitting at line feeds and joining with line feeds gives the text back.
pub proof fn lemma_join_split(s: Seq<char>)
    ensures
        join_lines(split_on(s, '\n')) == s,
    decreases s.len(),
{
    lemma_char_index_from_range(s, '\n', 0);
    match char_index_from(s, '\n', 0) {
        None => {},
        Some(k) => {
            let rest = s.skip(k + 1);
            lemma_join_split(rest);
            lemma_split_on_nonempty(rest, '\n');
            lemma_join_cons(s.take(k), split_on(rest, '\n'));
            assert(s.take(k) + seq!['\n'] + rest =~= s);
        },
    }
}

/// A line break undone: splitting the line at the cursor and then
/// deleting backward joins the line again, with the cursor where it was.
pub proof fn law_new_line_then_backspace(o: EditorState, m: EditorState, n: EditorState, r: bool)
    requires
        structural(o),
        after_add_new_line(o, m),
        after_handle_backspace(m, n, r),
    ensures
        line_bytes(n.lines@) == line_bytes(o.lines@),
        n.cursor_line == o.cursor_line,
        n.cursor_col == o.cursor_col,
{
    let cl = o.cursor_line as int;
    let line = lb(o.lines@[cl]);
    let c = o.cursor_col as int;
    let lo = line_bytes(o.lines@);
    lemma_lb_index(o.lines@, cl);
    let lm = line_bytes(m.lines@);
    assert(lm == lo.update(cl, line.take(c)).insert(cl + 1, line.skip(c)));
    lemma_lb_index(m.lines@, cl);
    assert(lm[cl] == line.take(c));
    assert(lm[cl + 1] == line.skip(c));
    assert(merge_at(lm, cl) =~= lo) by {
        assert(line.take(c) + line.skip(c) =~= line);
    }
}

proof fn lemma_one_line_pieces(t: Seq<char>)
    requires
        forall|k: int| 0 <= k < t.len() ==> t[k] != '\n' && t[k] != '\r',
    ensures
        split_on(t, '\n') == seq![t],
        text_pieces(t) == seq![t],
{
    crate::strs::lemma_normalize_no_cr(t);
    crate::strs::lemma_char_index_none(t, '\n', 0);
}

/// `y` spliced into `line` at the boundary `col`: both ends of `y` are
/// boundaries, and cutting `y` out again gives `line`.
proof fn lemma_spliced_boundaries(line: Seq<u8>, col: int, y: Seq<u8>)
    requires
        valid_utf8(line),
        valid_utf8(y),
        0 <= col <= line.len(),
        is_char_boundary(line, col),
    ensures
        valid_utf8(line.take(col) + y + line.skip(col)),
        is_char_boundary(line.take(col) + y + line.skip(col), col),
        is_char_boundary(line.take(col) + y + line.skip(col), col + y.len()),
        (line.take(col) + y + line.skip(col)).subrange(col, col + y.len()) == y,
        (line.take(col) + y + line.skip(col)).take(col) + (line.take(col) + y + line.skip(col)).skip(col + y.len())
            == line,
{
    let a = line.take(col);
    let b = line.skip(col);
    let nl = a + y + b;
    is_char_boundary_start_end_of_seq(line);
    crate::strs::lemma_boundary_take(line, col, col);
    crate::strs::lemma_boundary_skip(line, col, col);
    lemma_join_boundary(a, y);
    lemma_join_boundary(y, b);
    lemma_join_boundary(a, y + b);
    lemma_join_boundary(a + y, b);
    assert(a + (y + b) =~= nl);
    assert(nl.subrange(col, col + y.len()) =~= y);
    assert(nl.take(col) =~= a);
    assert(nl.skip(col + y.len()) =~= b);
    assert(a + b =~= line);
}

/// Deleting a one-line text (no line break or carriage return in it) right
/// after inserting it at the cursor gives back the lines and the cursor.
pub proof fn law_delete_yanked_after_insert(o: EditorState, m: EditorState, n: EditorState, t: Seq<char>, r: bool)
    requires
        cursor_ok(o),
        forall|k: int| 0 <= k < t.len() ==> t[k] != '\n' && t[k] != '\r',
        after_insert_text_at_cursor(o, m, t),
        after_delete_yanked_text(m, n, t, r),
    ensures
        r,
        line_bytes(n.lines@) == line_bytes(o.lines@),
        n.cursor_line == o.cursor_line,
        n.cursor_col == o.cursor_col,
{
    broadcast use encode_utf8_valid_utf8;

    lemma_one_line_pieces(t);
    let cl = o.cursor_line as int;
    let col = o.cursor_col as int;
    let line = lb(o.lines@[cl]);
    let y = encode_utf8(t);
    let nl = line.take(col) + y + line.skip(col);
    assert(line_or_empty(o.lines@, cl) == line);
    assert(min(col, line.len() as int) == col);
    assert(line_bytes(m.lines@) == line_bytes(o.lines@).update(cl, nl));
    assert(line_bytes(m.lines@).len() == m.lines@.len());
    assert(line_bytes(o.lines@).len() == o.lines@.len());
    assert(line_bytes(m.lines@)[cl] == lb(m.lines@[cl]));
    assert(line_or_empty(m.lines@, cl) == nl);
    lemma_spliced_boundaries(line, col, y);
    assert(m.cursor_col == col + y.len());
    assert(yank_start(m.lines@, cl, col + y.len(), t) == Some((cl, col)));
    assert(line_bytes(n.lines@) =~= line_bytes(o.lines@));
}

/// Deleting a text of several lines (no carriage return in it) right after
/// inserting it at the cursor gives back the lines and the cursor.
pub proof fn law_delete_yanked_after_insert_lines(o: EditorState, m: EditorState, n: EditorState, t: Seq<char>, r: bool)
    requires
        cursor_ok(o),
        forall|k: int| 0 <= k < t.len() ==> t[k] != '\r',
        split_on(t, '\n').len() > 1,
        after_insert_text_at_cursor(o, m, t),
        after_delete_yanked_text(m, n, t, r),
    ensures
        r,
        line_bytes(n.lines@) == line_bytes(o.lines@),
        n.cursor_line == o.cursor_line,
        n.cursor_col == o.cursor_col,
{
    broadcast use encode_utf8_valid_utf8;

    crate::strs::lemma_normalize_no_cr(t);
    let ps = split_on(t, '\n');
    assert(text_pieces(t) == ps);
    let k = ps.len() as int;
    let cl = o.cursor_line as int;
    let col = o.cursor_col as int;
    let ls = o.lines@;
    let line = lb(ls[cl]);
    assert(line_or_empty(ls, cl) == line);
    assert(min(col, line.len() as int) == col);
    let a = line.take(col);
    let b = line.skip(col);
    let f0 = encode_utf8(ps[0]);
    let fl = encode_utf8(ps[k - 1]);
    let lo = line_bytes(ls);
    let lm = line_bytes(m.lines@);
    let mid = enc_all(ps.subrange(1, k - 1));
    assert(lm == insert_lines(ls, cl, col, ps));
    let head = Seq::new(cl as nat, |i: int| line_or_empty(ls, i));
    assert(lo.len() == ls.len());
    assert(lm.len() == m.lines@.len());
    assert(mid.len() == k - 2);
    assert(lm =~= head + seq![a + f0] + mid + seq![fl + b] + lo.skip(cl + 1));
    assert(lm[cl] == a + f0);
    assert(lm[cl + k - 1] == fl + b);
    assert(lm[cl] == lb(m.lines@[cl]));
    assert(lm[cl + k - 1] == lb(m.lines@[cl + k - 1]));
    assert(line_or_empty(m.lines@, cl) == a + f0);
    assert(line_or_empty(m.lines@, cl + k - 1) == fl + b);
    is_char_boundary_start_end_of_seq(line);
    crate::strs::lemma_boundary_skip(line, col, col);
    lemma_join_boundary(fl, b);
    assert((a + f0).skip((a + f0).len() - f0.len()) =~= f0);
    assert((fl + b).take(fl.len() as int) =~= fl);
    assert(m.cursor_line == cl + k - 1);
    assert(m.cursor_col == fl.len());
    assert(yank_start(m.lines@, cl + k - 1, fl.len() as int, t) == Some((cl, col)));
    assert((a + f0).take(col) =~= a);
    assert((fl + b).skip(fl.len() as int) =~= b);
    assert(a + b =~= line);
    assert(lm.take(cl) =~= lo.take(cl));
    assert(lm.skip(cl + k) =~= lo.skip(cl + 1));
    assert(line_bytes(n.lines@) =~= lo);
}

/// Setting the text and reading it back gives the text with its line
/// endings normalized (`\r\n` and `\r` become `\n`).
pub proof fn law_set_text_round_trip(o: EditorState, n: EditorState, text: Seq<char>)
    requires
        after_set_text_internal(o, n, text),
    ensures
        join_lines(string_views(n.lines@)) == normalize_newlines(text),
{
    lemma_join_split(normalize_newlines(text));
}

} // verus!
