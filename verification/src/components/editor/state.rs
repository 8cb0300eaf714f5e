//! Editor state: lines of text and a cursor.

use vstd::prelude::*;
use vstd::string::*;
use vstd::utf8::*;

use crate::strs::{byte_length, lemma_boundary_ends, split_at_byte};

verus! {

/// Core editor state: lines of text and the cursor position, whose column
/// is a byte offset into the cursor line.
#[derive(Debug, Clone)]
pub struct EditorState {
    pub lines: Vec<String>,
    pub cursor_line: usize,
    pub cursor_col: usize,
}

/// UTF-8 bytes of a line.
pub open spec fn lb(s: String) -> Seq<u8> {
    encode_utf8(s@)
}

/// The lines of a state as byte sequences.
pub open spec fn line_bytes(lines: Seq<String>) -> Seq<Seq<u8>> {
    lines.map_values(|s: String| encode_utf8(s@))
}

/// Bytes of line `i`, empty when there is no such line.
pub open spec fn line_or_empty(lines: Seq<String>, i: int) -> Seq<u8> {
    if 0 <= i < lines.len() {
        lb(lines[i])
    } else {
        Seq::empty()
    }
}

/// Line `i` joined with line `i + 1`.
pub open spec fn merge_at(ls: Seq<Seq<u8>>, i: int) -> Seq<Seq<u8>> {
    ls.remove(i + 1).update(i, ls[i] + ls[i + 1])
}

pub proof fn lemma_line_bytes_update(lines: Seq<String>, i: int, s: String)
    requires
        0 <= i < lines.len(),
    ensures
        line_bytes(lines.update(i, s)) == line_bytes(lines).update(i, lb(s)),
{
    assert(line_bytes(lines.update(i, s)) =~= line_bytes(lines).update(i, lb(s)));
}

pub proof fn lemma_line_bytes_push(lines: Seq<String>, s: String)
    ensures
        line_bytes(lines.push(s)) == line_bytes(lines).push(lb(s)),
{
    assert(line_bytes(lines.push(s)) =~= line_bytes(lines).push(lb(s)));
}

pub proof fn lemma_line_bytes_remove(lines: Seq<String>, i: int)
    requires
        0 <= i < lines.len(),
    ensures
        line_bytes(lines.remove(i)) == line_bytes(lines).remove(i),
{
    assert(line_bytes(lines.remove(i)) =~= line_bytes(lines).remove(i));
}

pub proof fn lemma_line_bytes_insert(lines: Seq<String>, i: int, s: String)
    requires
        0 <= i <= lines.len(),
    ensures
        line_bytes(lines.insert(i, s)) == line_bytes(lines).insert(i, lb(s)),
{
    assert(line_bytes(lines.insert(i, s)) =~= line_bytes(lines).insert(i, lb(s)));
}

/// `col`, clamped to the length of `line`, is a character boundary.
pub open spec fn col_ok(line: String, col: int) -> bool {
    col >= lb(line).len() || is_char_boundary(lb(line), col)
}

/// `col` is a character boundary within `line`.
pub open spec fn col_at_boundary(line: String, col: int) -> bool {
    col <= lb(line).len() && is_char_boundary(lb(line), col)
}

/// The text lines are non-empty, and the cursor is on a line, at most at
/// its end.
pub open spec fn structural(s: EditorState) -> bool {
    &&& s.lines@.len() > 0
    &&& s.cursor_line < s.lines@.len()
    &&& s.cursor_col <= lb(s.lines@[s.cursor_line as int]).len()
}

/// The cursor is on a character boundary of its line.
pub open spec fn cursor_ok(s: EditorState) -> bool {
    structural(s) && col_at_boundary(s.lines@[s.cursor_line as int], s.cursor_col as int)
}

pub open spec fn min(a: int, b: int) -> int {
    if a < b {
        a
    } else {
        b
    }
}

/// Lines joined with `\n`.
pub open spec fn join_lines(ls: Seq<Seq<char>>) -> Seq<char>
    decreases ls.len(),
{
    if ls.len() == 0 {
        Seq::empty()
    } else if ls.len() == 1 {
        ls[0]
    } else {
        join_lines(ls.drop_last()) + seq!['\n'] + ls.last()
    }
}

impl Default for EditorState {
    fn default() -> (r: Self)
        ensures
            r.lines@.len() == 1,
            r.lines@[0]@ == Seq::<char>::empty(),
            r.cursor_line == 0,
            r.cursor_col == 0,
    {
        let mut lines: Vec<String> = Vec::new();
        lines.push(String::new());
        EditorState { lines, cursor_line: 0, cursor_col: 0 }
    }
}

impl EditorState {
    /// The full text: the lines joined with newlines.
    pub fn text(&self) -> (r: String)
        ensures
            r@ == join_lines(self.lines@.map_values(|s: String| s@)),
    {
        let ghost ls = self.lines@.map_values(|s: String| s@);
        let mut r = String::new();
        let n = self.lines.len();
        if n == 0 {
            return r;
        }
        r.append(self.lines[0].as_str());
        let mut i: usize = 1;
        assert(ls.take(1).drop_last() =~= Seq::<Seq<char>>::empty());
        while i < n
            invariant
                n == self.lines@.len(),
                ls == self.lines@.map_values(|s: String| s@),
                1 <= i <= n,
                r@ == join_lines(ls.take(i as int)),
            decreases n - i,
        {
            r.append("\n");
            r.append(self.lines[i].as_str());
            proof {
                reveal_strlit("\n");
                assert(ls.take(i + 1).drop_last() =~= ls.take(i as int));
            }
            i = i + 1;
        }
        assert(ls.take(n as int) =~= ls);
        r
    }

    /// Whether the editor is empty (a single empty line).
    pub fn is_empty(&self) -> (b: bool)
        ensures
            b == (self.lines@.len() == 1 && self.lines@[0]@.len() == 0),
    {
        self.lines.len() == 1 && self.lines[0].as_str().unicode_len() == 0
    }

    /// The cursor line, or the empty string when the cursor is past the lines.
    pub fn current_line(&self) -> (r: &str)
        ensures
            self.cursor_line < self.lines@.len() ==> r@ == self.lines@[self.cursor_line as int]@,
            self.cursor_line >= self.lines@.len() ==> r@.len() == 0,
    {
        if self.cursor_line < self.lines.len() {
            self.lines[self.cursor_line].as_str()
        } else {
            proof {
                reveal_strlit("");
            }
            ""
        }
    }

    /// The text before the cursor on the cursor line.
    pub fn text_before_cursor(&self) -> (r: String)
        requires
            self.cursor_line < self.lines@.len() ==> col_ok(
                self.lines@[self.cursor_line as int],
                self.cursor_col as int,
            ),
        ensures
            ({
                let line = if self.cursor_line < self.lines@.len() {
                    self.lines@[self.cursor_line as int]@
                } else {
                    Seq::empty()
                };
                encode_utf8(r@) == encode_utf8(line).take(
                    min(self.cursor_col as int, encode_utf8(line).len() as int),
                )
            }),
    {
        let line = self.current_line();
        let n = byte_length(line);
        let c = if self.cursor_col < n {
            self.cursor_col
        } else {
            n
        };
        proof {
            lemma_boundary_ends(line@);
        }
        let (before, _after) = split_at_byte(line, c);
        before
    }

    /// The text after the cursor on the cursor line.
    pub fn text_after_cursor(&self) -> (r: String)
        requires
            self.cursor_line < self.lines@.len() ==> col_ok(
                self.lines@[self.cursor_line as int],
                self.cursor_col as int,
            ),
        ensures
            ({
                let line = if self.cursor_line < self.lines@.len() {
                    self.lines@[self.cursor_line as int]@
                } else {
                    Seq::empty()
                };
                encode_utf8(r@) == encode_utf8(line).skip(
                    min(self.cursor_col as int, encode_utf8(line).len() as int),
                )
            }),
    {
        let line = self.current_line();
        let n = byte_length(line);
        let c = if self.cursor_col < n {
            self.cursor_col
        } else {
            n
        };
        proof {
            lemma_boundary_ends(line@);
        }
        let (_before, after) = split_at_byte(line, c);
        after
    }
}

/// A visual line: a segment of a logical line as laid out on screen.
#[derive(Debug, Clone)]
pub struct VisualLine {
    /// Index into the editor's lines.
    pub logical_line: usize,
    /// Starting byte offset in the logical line.
    pub start_col: usize,
    /// Byte length of the segment.
    pub length: usize,
}

/// A layout line for rendering.
#[derive(Debug, Clone)]
pub struct LayoutLine {
    pub text: String,
    pub has_cursor: bool,
    pub cursor_pos: Option<usize>,
}

} // verus!
