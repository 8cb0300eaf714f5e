//! Grapheme classification and the mapping between the cursor and visual lines.

use vstd::prelude::*;

use super::state::{EditorState, VisualLine};
use crate::strs::chars_of;

verus! {

pub open spec fn ws_char(c: char) -> bool {
    c == ' ' || c == '\t' || c == '\r' || c == '\n'
}

/// The punctuation characters ``(){}[]<>.,;:'"!?+-=*/\|&%^$#@~` ``.
pub open spec fn punct_char(c: char) -> bool {
    c == '(' || c == ')' || c == '{' || c == '}' || c == '[' || c == ']' || c == '<' || c == '>'
        || c == '.' || c == ',' || c == ';' || c == ':' || c == '\'' || c == '"' || c == '!' || c
        == '?' || c == '+' || c == '-' || c == '=' || c == '*' || c == '/' || c == '\\' || c == '|'
        || c == '&' || c == '%' || c == '^' || c == '$' || c == '#' || c == '@' || c == '~' || c
        == '`'
}

/// A grapheme that starts with a space, tab or line break.
pub open spec fn ws_grapheme(g: Seq<char>) -> bool {
    g.len() > 0 && ws_char(g[0])
}

/// A grapheme that starts with a punctuation character.
pub open spec fn punct_grapheme(g: Seq<char>) -> bool {
    g.len() > 0 && punct_char(g[0])
}

/// Check whether a grapheme cluster is white space.
pub fn is_whitespace_grapheme(g: &str) -> (r: bool)
    ensures
        r == ws_grapheme(g@),
{
    let v = chars_of(g);
    v.len() > 0 && (v[0] == ' ' || v[0] == '\t' || v[0] == '\r' || v[0] == '\n')
}

/// Check whether a grapheme cluster is punctuation.
pub fn is_punctuation_grapheme(g: &str) -> (r: bool)
    ensures
        r == punct_grapheme(g@),
{
    let v = chars_of(g);
    if v.len() == 0 {
        return false;
    }
    let c = v[0];
    c == '(' || c == ')' || c == '{' || c == '}' || c == '[' || c == ']' || c == '<' || c == '>'
        || c == '.' || c == ',' || c == ';' || c == ':' || c == '\'' || c == '"' || c == '!' || c
        == '?' || c == '+' || c == '-' || c == '=' || c == '*' || c == '/' || c == '\\' || c == '|'
        || c == '&' || c == '%' || c == '^' || c == '$' || c == '#' || c == '@' || c == '~' || c
        == '`'
}

pub open spec fn visual_line_has_cursor(vls: Seq<VisualLine>, i: int, cursor_line: int, cursor_col: int) -> bool {
    let vl = vls[i];
    let off = cursor_col - vl.start_col;
    let last_segment = i == vls.len() - 1 || (i + 1 < vls.len() && vls[i + 1].logical_line
        != vl.logical_line);
    vl.logical_line == cursor_line && off >= 0 && (off < vl.length || (last_segment && off
        <= vl.length))
}

/// The first visual line at or after `i` that holds the cursor.
pub open spec fn cursor_visual_line_from(vls: Seq<VisualLine>, i: int, cursor_line: int, cursor_col: int) -> int
    decreases vls.len() - i,
{
    if i < 0 || i >= vls.len() {
        if vls.len() > 0 {
            vls.len() - 1
        } else {
            0
        }
    } else if visual_line_has_cursor(vls, i, cursor_line, cursor_col) {
        i
    } else {
        cursor_visual_line_from(vls, i + 1, cursor_line, cursor_col)
    }
}

/// Index of the visual line that holds the cursor; the last one when none does.
pub fn find_current_visual_line(state: &EditorState, visual_lines: &[VisualLine]) -> (r: usize)
    ensures
        r == cursor_visual_line_from(
            visual_lines@,
            0,
            state.cursor_line as int,
            state.cursor_col as int,
        ),
{
    let n = visual_lines.len();
    let mut i: usize = 0;
    while i < n
        invariant
            n == visual_lines@.len(),
            i <= n,
            cursor_visual_line_from(
                visual_lines@,
                0,
                state.cursor_line as int,
                state.cursor_col as int,
            ) == cursor_visual_line_from(
                visual_lines@,
                i as int,
                state.cursor_line as int,
                state.cursor_col as int,
            ),
        decreases n - i,
    {
        let vl = &visual_lines[i];
        if vl.logical_line == state.cursor_line {
            let off: i128 = state.cursor_col as i128 - vl.start_col as i128;
            let last_segment = i == n - 1 || (i + 1 < n && visual_lines[i + 1].logical_line
                != vl.logical_line);
            if off >= 0 && (off < vl.length as i128 || (last_segment && off <= vl.length as i128)) {
                return i;
            }
        }
        i = i + 1;
    }
    if n > 0 {
        n - 1
    } else {
        0
    }
}

} // verus!
