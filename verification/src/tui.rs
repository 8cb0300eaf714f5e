//! The terminal UI loop's own decisions: which input reaches the focused
//! component, and what a frame writes to the terminal (full or differential
//! redraw inside synchronized output).

use vstd::prelude::*;
use vstd::string::*;
use vstd::utf8::*;

use crate::strs::{dec_digits, dec_string, str_eq, string_views};

verus! {

/// An ASCII letter.
pub open spec fn ascii_alpha(c: u8) -> bool {
    (0x41 <= c && c <= 0x5a) || (0x61 <= c && c <= 0x7a)
}

/// A Kitty key-release report: a CSI sequence (`ESC [`, at least four
/// bytes) whose last `:3` (the release event type) comes right before its
/// final byte, a letter or `~`.
pub open spec fn key_release(b: Seq<u8>) -> bool {
    &&& b.len() >= 4
    &&& b[0] == 0x1b
    &&& b[1] == 0x5b
    &&& b[b.len() - 3] == 0x3a
    &&& b[b.len() - 2] == 0x33
    &&& (ascii_alpha(b[b.len() - 1]) || b[b.len() - 1] == 0x7e)
}

/// Whether `data` is a key-release event of the Kitty keyboard protocol,
/// such as `ESC [ 97 ; 1 : 3 u`.
pub fn is_key_release(data: &str) -> (r: bool)
    ensures
        r == key_release(encode_utf8(data@)),
{
    let b = data.as_bytes();
    let n = b.len();
    if n < 4 || b[0] != 0x1b || b[1] != 0x5b {
        return false;
    }
    let last = b[n - 1];
    b[n - 3] == 0x3a && b[n - 2] == 0x33 && ((0x41 <= last && last <= 0x5a) || (0x61 <= last && last
        <= 0x7a) || last == 0x7e)
}


/// What the renderer remembers between frames, and its two options.
/// `overlays_shown` tells whether overlays were composited into the frame
/// being planned; `cursor_visible` is whether the hardware cursor is to be
/// shown once the frame is written.
pub struct RenderState {
    pub previous_lines: Vec<String>,
    pub previous_width: u16,
    pub cursor_row: usize,
    pub hardware_cursor_row: usize,
    pub max_lines_rendered: usize,
    pub previous_viewport_top: usize,
    pub full_redraw_count: u32,
    pub show_hardware_cursor: bool,
    pub clear_on_shrink: bool,
    pub overlays_shown: bool,
    pub cursor_visible: bool,
}

/// A `RenderState` with its lines taken by their text.
pub struct RenderView {
    pub previous_lines: Seq<Seq<char>>,
    pub previous_width: u16,
    pub cursor_row: usize,
    pub hardware_cursor_row: usize,
    pub max_lines_rendered: usize,
    pub previous_viewport_top: usize,
    pub full_redraw_count: u32,
    pub show_hardware_cursor: bool,
    pub clear_on_shrink: bool,
    pub overlays_shown: bool,
    pub cursor_visible: bool,
}

impl View for RenderState {
    type V = RenderView;

    open spec fn view(&self) -> RenderView {
        RenderView {
            previous_lines: string_views(self.previous_lines@),
            previous_width: self.previous_width,
            cursor_row: self.cursor_row,
            hardware_cursor_row: self.hardware_cursor_row,
            max_lines_rendered: self.max_lines_rendered,
            previous_viewport_top: self.previous_viewport_top,
            full_redraw_count: self.full_redraw_count,
            show_hardware_cursor: self.show_hardware_cursor,
            clear_on_shrink: self.clear_on_shrink,
            overlays_shown: self.overlays_shown,
            cursor_visible: self.cursor_visible,
        }
    }
}

impl RenderState {
    /// The state before the first frame: nothing rendered, both options off.
    pub fn new() -> (r: RenderState)
        ensures
            r@.previous_lines.len() == 0,
            r@.previous_width == 0,
            r@.cursor_row == 0,
            r@.hardware_cursor_row == 0,
            r@.max_lines_rendered == 0,
            r@.previous_viewport_top == 0,
            r@.full_redraw_count == 0,
            !r@.show_hardware_cursor,
            !r@.clear_on_shrink,
            !r@.overlays_shown,
            !r@.cursor_visible,
    {
        RenderState {
            previous_lines: Vec::new(),
            previous_width: 0,
            cursor_row: 0,
            hardware_cursor_row: 0,
            max_lines_rendered: 0,
            previous_viewport_top: 0,
            full_redraw_count: 0,
            show_hardware_cursor: false,
            clear_on_shrink: false,
            overlays_shown: false,
            cursor_visible: false,
        }
    }
}

/// Begin synchronized output (`CSI ? 2026 h`).
pub open spec fn sync_begin() -> Seq<char> {
    "\x1b[?2026h"@
}

/// End synchronized output (`CSI ? 2026 l`).
pub open spec fn sync_end() -> Seq<char> {
    "\x1b[?2026l"@
}

/// Clear scrollback and screen, then home the cursor.
pub open spec fn clear_all() -> Seq<char> {
    "\x1b[3J\x1b[2J\x1b[H"@
}

/// `ESC [`, `n` in decimal, then `letter`.
pub open spec fn csi_count(n: nat, letter: char) -> Seq<char> {
    "\x1b["@ + dec_digits(n) + seq![letter]
}

/// Move the cursor `d` rows down (up when negative); nothing for 0.
pub open spec fn vmove(d: int) -> Seq<char> {
    if d > 0 {
        csi_count(d as nat, 'B')
    } else if d < 0 {
        csi_count((-d) as nat, 'A')
    } else {
        Seq::empty()
    }
}

/// `k` copies of `s`.
pub open spec fn repeat(s: Seq<char>, k: nat) -> Seq<char>
    decreases k,
{
    if k == 0 {
        Seq::empty()
    } else {
        repeat(s, (k - 1) as nat) + s
    }
}

/// Lines separated by CRLF.
pub open spec fn join_crlf(ls: Seq<Seq<char>>) -> Seq<char>
    decreases ls.len(),
{
    if ls.len() == 0 {
        Seq::empty()
    } else {
        join_crlf(ls.drop_last()) + (if ls.len() > 1 {
            "\r\n"@
        } else {
            Seq::empty()
        }) + ls.last()
    }
}

/// Lines separated by CRLF, each written over a cleared row.
pub open spec fn join_cleared(ls: Seq<Seq<char>>) -> Seq<char>
    decreases ls.len(),
{
    if ls.len() == 0 {
        Seq::empty()
    } else {
        join_cleared(ls.drop_last()) + (if ls.len() > 1 {
            "\r\n"@
        } else {
            Seq::empty()
        }) + "\x1b[2K"@ + ls.last()
    }
}

/// `a - b`, or 0 when `b` is larger.
pub open spec fn sat_sub(a: int, b: int) -> int {
    if a > b {
        a - b
    } else {
        0
    }
}

pub open spec fn max_of(a: int, b: int) -> int {
    if a >= b {
        a
    } else {
        b
    }
}

/// Line `i`, or the empty line past the end.
pub open spec fn line_or_empty(ls: Seq<Seq<char>>, i: int) -> Seq<char> {
    if 0 <= i < ls.len() {
        ls[i]
    } else {
        Seq::empty()
    }
}

/// Whether row `i` differs between the two frames.
pub open spec fn row_changed(a: Seq<Seq<char>>, b: Seq<Seq<char>>, i: int) -> bool {
    line_or_empty(a, i) != line_or_empty(b, i)
}

/// The first changed row below `k`.
pub open spec fn first_change(a: Seq<Seq<char>>, b: Seq<Seq<char>>, k: int) -> Option<int>
    decreases k,
{
    if k <= 0 {
        None
    } else {
        match first_change(a, b, k - 1) {
            Some(i) => Some(i),
            None => if row_changed(a, b, k - 1) {
                Some(k - 1)
            } else {
                None
            },
        }
    }
}

/// The last changed row below `k` (0 when none).
pub open spec fn last_change(a: Seq<Seq<char>>, b: Seq<Seq<char>>, k: int) -> int
    decreases k,
{
    if k <= 0 {
        0
    } else if row_changed(a, b, k - 1) {
        k - 1
    } else {
        last_change(a, b, k - 1)
    }
}

/// Where the hardware cursor goes after a frame of `total` lines, the bytes
/// that move it there from row `hw`, and whether it is then shown. Without
/// a cursor position (or lines) it stays and is hidden.
pub open spec fn cursor_plan(hw: usize, cursor: Option<(usize, usize)>, total: int, show: bool) -> (usize, Seq<char>, bool) {
    if cursor is None || total == 0 {
        (hw, Seq::empty(), false)
    } else {
        let row = cursor.unwrap().0 as int;
        let col = cursor.unwrap().1 as int;
        let t = if row < total - 1 {
            row
        } else {
            total - 1
        };
        (t as usize, vmove(t - hw) + csi_count((col + 1) as nat, 'G'), show)
    }
}

/// The frame `buf` followed by the cursor placement, and the state after.
pub open spec fn with_cursor(v: RenderView, buf: Seq<char>, cursor: Option<(usize, usize)>, total: int) -> (RenderView, Seq<char>) {
    let c = cursor_plan(v.hardware_cursor_row, cursor, total, v.show_hardware_cursor);
    (RenderView { hardware_cursor_row: c.0, cursor_visible: c.2, ..v }, buf + c.1)
}

/// A full redraw: every line, after clearing the screen when `clear`.
pub open spec fn full_frame(
    p: RenderView,
    n: Seq<Seq<char>>,
    width: u16,
    height: u16,
    clear: bool,
    cursor: Option<(usize, usize)>,
) -> (RenderView, Seq<char>) {
    let buf = sync_begin() + (if clear {
        clear_all()
    } else {
        Seq::empty()
    }) + join_crlf(n) + sync_end();
    let row = sat_sub(n.len() as int, 1);
    let max = if clear {
        n.len() as int
    } else {
        max_of(p.max_lines_rendered as int, n.len() as int)
    };
    let v = RenderView {
        previous_lines: n,
        previous_width: width,
        cursor_row: row as usize,
        hardware_cursor_row: row as usize,
        max_lines_rendered: max as usize,
        previous_viewport_top: sat_sub(max, height as int) as usize,
        full_redraw_count: (p.full_redraw_count + 1) as u32,
        ..p
    };
    with_cursor(v, buf, cursor, n.len() as int)
}

/// The first changed row, counting rows appended below the old frame.
pub open spec fn frame_first_change(p: Seq<Seq<char>>, n: Seq<Seq<char>>) -> Option<int> {
    let f = first_change(p, n, max_of(p.len() as int, n.len() as int));
    if n.len() > p.len() && f is None {
        Some(p.len() as int)
    } else {
        f
    }
}

/// The last changed row, counting rows appended below the old frame.
pub open spec fn frame_last_change(p: Seq<Seq<char>>, n: Seq<Seq<char>>) -> int {
    if n.len() > p.len() {
        n.len() - 1
    } else {
        last_change(p, n, max_of(p.len() as int, n.len() as int))
    }
}

/// Whether a frame is drawn whole, and then whether the screen is cleared
/// first: on the first frame (no clear), on a width change, when the content
/// shrank below what was rendered with clear-on-shrink and no overlays,
/// when only removed rows changed and more of them than the screen holds,
/// and when the first change lies above the previous viewport.
pub open spec fn redraw_whole(p: RenderView, n: Seq<Seq<char>>, width: u16, height: u16) -> Option<bool> {
    let width_changed = p.previous_width != 0 && p.previous_width != width;
    let pl = p.previous_lines;
    if pl.len() == 0 && !width_changed {
        Some(false)
    } else if width_changed {
        Some(true)
    } else if p.clear_on_shrink && n.len() < p.max_lines_rendered && !p.overlays_shown {
        Some(true)
    } else {
        match frame_first_change(pl, n) {
            None => None,
            Some(f) => if f >= n.len() {
                if pl.len() > n.len() && pl.len() - n.len() > height {
                    Some(true)
                } else {
                    None
                }
            } else if f < sat_sub(pl.len() as int, height as int) {
                Some(true)
            } else {
                None
            },
        }
    }
}

/// Only removed rows changed: the rows below the new last line are cleared
/// and the cursor goes to the new last line.
pub open spec fn removed_rows_frame(
    p: RenderView,
    n: Seq<Seq<char>>,
    width: u16,
    height: u16,
    cursor: Option<(usize, usize)>,
) -> (RenderView, Seq<char>) {
    let h = height as int;
    let pl = p.previous_lines;
    let v0 = if pl.len() > n.len() {
        let target = sat_sub(n.len() as int, 1);
        let vt = sat_sub(p.max_lines_rendered as int, h);
        let d = (target - vt) - (p.hardware_cursor_row - p.previous_viewport_top);
        let extra = pl.len() - n.len();
        let buf = sync_begin() + vmove(d) + "\r"@ + "\x1b[1B"@ + repeat("\r\x1b[2K\x1b[1B"@, (extra - 1) as nat)
            + "\r\x1b[2K"@ + csi_count(extra as nat, 'A') + sync_end();
        (RenderView { cursor_row: target as usize, hardware_cursor_row: target as usize, ..p }, buf)
    } else {
        (p, Seq::<char>::empty())
    };
    let v = RenderView {
        previous_lines: n,
        previous_width: width,
        previous_viewport_top: sat_sub(p.max_lines_rendered as int, h) as usize,
        ..v0.0
    };
    with_cursor(v, v0.1, cursor, n.len() as int)
}

/// A frame whose first changed row `f` is one appended right below the old
/// frame: writing starts with a new line from the old last row.
pub open spec fn append_start(p: RenderView, n_len: int, f: int) -> bool {
    n_len > p.previous_lines.len() && f == p.previous_lines.len() && f > 0
}

/// The moves before a differential frame's rows: scroll when the row to
/// start from (`f`, or the row above it for an appended row) lies below
/// the previous viewport, then move the cursor there, to column 0.
pub open spec fn diff_lead(p: RenderView, n_len: int, height: u16, f: int) -> Seq<char> {
    let h = height as int;
    let vt0 = sat_sub(p.max_lines_rendered as int, h);
    let pvt0 = p.previous_viewport_top as int;
    let hw0 = p.hardware_cursor_row as int;
    let target = if append_start(p, n_len, f) {
        f - 1
    } else {
        f
    };
    let scroll = sat_sub(target, pvt0 + h - 1);
    let screen_row = if sat_sub(hw0, pvt0) < h - 1 {
        sat_sub(hw0, pvt0)
    } else {
        h - 1
    };
    let to_bottom = h - 1 - screen_row;
    let pre = if scroll > 0 {
        (if to_bottom > 0 {
            csi_count(to_bottom as nat, 'B')
        } else {
            Seq::empty()
        }) + repeat("\r\n"@, scroll as nat)
    } else {
        Seq::empty()
    };
    let hw = if scroll > 0 {
        target
    } else {
        hw0
    };
    pre + vmove((target - (vt0 + scroll)) - (hw - (pvt0 + scroll))) + (if append_start(p, n_len, f) {
        "\r\n"@
    } else {
        "\r"@
    })
}

/// The last row a differential frame rewrites.
pub open spec fn diff_end(n: Seq<Seq<char>>, l: int) -> int {
    if l < n.len() - 1 {
        l
    } else {
        n.len() - 1
    }
}

/// After the rewritten rows, when the content lost rows: move to the new
/// last line, clear each lost row, and move back up.
pub open spec fn shrink_tail(p: RenderView, n: Seq<Seq<char>>, end: int) -> Seq<char> {
    let pl = p.previous_lines;
    if pl.len() > n.len() {
        (if end < n.len() - 1 {
            csi_count((n.len() - 1 - end) as nat, 'B')
        } else {
            Seq::empty()
        }) + repeat("\r\n\x1b[2K"@, (pl.len() - n.len()) as nat) + csi_count((pl.len() - n.len()) as nat, 'A')
    } else {
        Seq::empty()
    }
}

/// The bytes of a differential frame from row `f` to row `l`.
pub open spec fn diff_bytes(p: RenderView, n: Seq<Seq<char>>, height: u16, f: int, l: int) -> Seq<char> {
    let end = diff_end(n, l);
    sync_begin() + diff_lead(p, n.len() as int, height, f) + join_cleared(n.subrange(f, end + 1)) + shrink_tail(p, n, end)
        + sync_end()
}

/// The state after a differential frame whose last changed row is `l`.
pub open spec fn diff_state(p: RenderView, n: Seq<Seq<char>>, width: u16, height: u16, l: int) -> RenderView {
    let end = diff_end(n, l);
    let max = max_of(p.max_lines_rendered as int, n.len() as int);
    RenderView {
        previous_lines: n,
        previous_width: width,
        cursor_row: sat_sub(n.len() as int, 1) as usize,
        hardware_cursor_row: (if p.previous_lines.len() > n.len() && end < n.len() - 1 {
            n.len() - 1
        } else {
            end
        }) as usize,
        max_lines_rendered: max as usize,
        previous_viewport_top: sat_sub(max, height as int) as usize,
        ..p
    }
}

/// A differential frame: from the first changed row `f` to the last `l`
/// (within the new lines), each row cleared and rewritten, scrolling first
/// when `f` lies below the previous viewport; rows the content lost are
/// cleared after.
pub open spec fn diff_frame(
    p: RenderView,
    n: Seq<Seq<char>>,
    width: u16,
    height: u16,
    cursor: Option<(usize, usize)>,
    f: int,
    l: int,
) -> (RenderView, Seq<char>) {
    with_cursor(diff_state(p, n, width, height, l), diff_bytes(p, n, height, f, l), cursor, n.len() as int)
}

/// The state after a frame of lines `n` on a `width` by `height` screen,
/// and the bytes written for it (cursor placement included).
pub open spec fn render_plan(
    p: RenderView,
    n: Seq<Seq<char>>,
    width: u16,
    height: u16,
    cursor: Option<(usize, usize)>,
) -> (RenderView, Seq<char>) {
    match redraw_whole(p, n, width, height) {
        Some(clear) => full_frame(p, n, width, height, clear, cursor),
        None => match frame_first_change(p.previous_lines, n) {
            None => with_cursor(
                RenderView {
                    previous_viewport_top: sat_sub(p.max_lines_rendered as int, height as int) as usize,
                    ..p
                },
                Seq::empty(),
                cursor,
                n.len() as int,
            ),
            Some(f) => if f >= n.len() {
                removed_rows_frame(p, n, width, height, cursor)
            } else {
                diff_frame(p, n, width, height, cursor, f, frame_last_change(p.previous_lines, n))
            },
        },
    }
}


/// Row counts small enough for the signed arithmetic of cursor moves.
pub open spec fn rows_fit(p: RenderView, n: int) -> bool {
    &&& p.previous_lines.len() <= 0x3fff_ffff
    &&& p.max_lines_rendered <= 0x3fff_ffff
    &&& p.hardware_cursor_row <= 0x3fff_ffff
    &&& p.previous_viewport_top <= 0x3fff_ffff
    &&& n <= 0x3fff_ffff
}

proof fn lemma_first_before_last(a: Seq<Seq<char>>, b: Seq<Seq<char>>, k: int)
    ensures
        first_change(a, b, k) matches Some(f) ==> 0 <= f < k && f <= last_change(a, b, k) && row_changed(a, b, f),
    decreases k,
{
    if k > 0 {
        lemma_first_before_last(a, b, k - 1);
    }
}

fn push_csi_count(buf: &mut String, n: usize, letter: char)
    ensures
        final(buf)@ == old(buf)@ + csi_count(n as nat, letter),
{
    buf.append("\x1b[");
    let d = dec_string(n as u64);
    buf.append(d.as_str());
    buf.push(letter);
    assert(buf@ =~= old(buf)@ + csi_count(n as nat, letter));
}

fn push_vmove(buf: &mut String, a: usize, b: usize)
    ensures
        final(buf)@ == old(buf)@ + vmove(a - b),
{
    if a > b {
        push_csi_count(buf, a - b, 'B');
    } else if a < b {
        push_csi_count(buf, b - a, 'A');
    } else {
        assert(buf@ =~= old(buf)@ + vmove(a - b));
    }
}

fn push_repeat(buf: &mut String, s: &str, k: usize)
    ensures
        final(buf)@ == old(buf)@ + repeat(s@, k as nat),
{
    let mut i: usize = 0;
    assert(buf@ =~= old(buf)@ + repeat(s@, 0));
    while i < k
        invariant
            i <= k,
            buf@ == old(buf)@ + repeat(s@, i as nat),
        decreases k - i,
    {
        buf.append(s);
        i = i + 1;
        assert(buf@ =~= old(buf)@ + repeat(s@, i as nat));
    }
}

fn push_joined(buf: &mut String, ls: &Vec<String>)
    ensures
        final(buf)@ == old(buf)@ + join_crlf(string_views(ls@)),
{
    let ghost sv = string_views(ls@);
    let mut i: usize = 0;
    assert(sv.take(0) =~= Seq::<Seq<char>>::empty());
    assert(buf@ =~= old(buf)@ + join_crlf(sv.take(0)));
    while i < ls.len()
        invariant
            i <= ls@.len(),
            sv == string_views(ls@),
            buf@ == old(buf)@ + join_crlf(sv.take(i as int)),
        decreases ls@.len() - i,
    {
        if i > 0 {
            buf.append("\r\n");
        }
        buf.append(ls[i].as_str());
        i = i + 1;
        assert(sv.take(i as int).drop_last() =~= sv.take(i - 1));
        assert(buf@ =~= old(buf)@ + join_crlf(sv.take(i as int)));
    }
    assert(sv.take(ls@.len() as int) =~= sv);
}

fn push_cleared(buf: &mut String, ls: &Vec<String>, a: usize, b: usize)
    requires
        a <= b <= ls@.len(),
    ensures
        final(buf)@ == old(buf)@ + join_cleared(string_views(ls@).subrange(a as int, b as int)),
{
    let ghost sv = string_views(ls@);
    let mut i: usize = a;
    assert(sv.subrange(a as int, a as int) =~= Seq::<Seq<char>>::empty());
    assert(buf@ =~= old(buf)@ + join_cleared(sv.subrange(a as int, a as int)));
    while i < b
        invariant
            a <= i <= b <= ls@.len(),
            sv == string_views(ls@),
            buf@ == old(buf)@ + join_cleared(sv.subrange(a as int, i as int)),
        decreases b - i,
    {
        if i > a {
            buf.append("\r\n");
        }
        buf.append("\x1b[2K");
        buf.append(ls[i].as_str());
        i = i + 1;
        assert(sv.subrange(a as int, i as int).drop_last() =~= sv.subrange(a as int, i - 1));
        assert(buf@ =~= old(buf)@ + join_cleared(sv.subrange(a as int, i as int)));
    }
}

fn copy_lines(v: &Vec<String>) -> (r: Vec<String>)
    ensures
        string_views(r@) == string_views(v@),
{
    let mut r: Vec<String> = Vec::new();
    let mut i: usize = 0;
    while i < v.len()
        invariant
            i <= v@.len(),
            r@.len() == i,
            forall|j: int| 0 <= j < i ==> #[trigger] r@[j]@ == v@[j]@,
        decreases v@.len() - i,
    {
        r.push(v[i].clone());
        i = i + 1;
    }
    assert(string_views(r@) =~= string_views(v@));
    r
}

/// Whether row `i` differs between two frames.
fn row_differs(a: &Vec<String>, b: &Vec<String>, i: usize) -> (r: bool)
    ensures
        r == row_changed(string_views(a@), string_views(b@), i as int),
{
    let empty = String::new();
    let x = if i < a.len() {
        a[i].as_str()
    } else {
        empty.as_str()
    };
    let y = if i < b.len() {
        b[i].as_str()
    } else {
        empty.as_str()
    };
    !str_eq(x, y)
}

/// Append the cursor placement to `buf` and record where the cursor went.
fn finish_frame(v: RenderState, buf: String, cursor: Option<(usize, usize)>, total: usize) -> (r: (RenderState, String))
    requires
        v.hardware_cursor_row <= 0x3fff_ffff,
        total <= 0x3fff_ffff,
        cursor matches Some(c) ==> c.1 < usize::MAX,
    ensures
        r.0@ == with_cursor(v@, buf@, cursor, total as int).0,
        r.1@ == with_cursor(v@, buf@, cursor, total as int).1,
{
    let mut v = v;
    let mut buf = buf;
    let ghost v0 = v@;
    let ghost b0 = buf@;
    match cursor {
        Some((row, col)) => {
            if total > 0 {
                let t = if row < total - 1 {
                    row
                } else {
                    total - 1
                };
                push_vmove(&mut buf, t, v.hardware_cursor_row);
                push_csi_count(&mut buf, col + 1, 'G');
                v.hardware_cursor_row = t;
                v.cursor_visible = v.show_hardware_cursor;
                assert(buf@ =~= b0 + vmove(t - v0.hardware_cursor_row) + csi_count((col + 1) as nat, 'G'));
                return (v, buf);
            }
        },
        None => {},
    }
    v.cursor_visible = false;
    assert(buf@ =~= b0 + Seq::<char>::empty());
    (v, buf)
}

fn full_render(
    prev: &RenderState,
    new_lines: &Vec<String>,
    width: u16,
    height: u16,
    clear: bool,
    cursor: Option<(usize, usize)>,
) -> (r: (RenderState, String))
    requires
        rows_fit(prev@, new_lines@.len() as int),
        prev.full_redraw_count < u32::MAX,
        cursor matches Some(c) ==> c.1 < usize::MAX,
    ensures
        r.0@ == full_frame(prev@, string_views(new_lines@), width, height, clear, cursor).0,
        r.1@ == full_frame(prev@, string_views(new_lines@), width, height, clear, cursor).1,
{
    let mut buf = String::new();
    buf.append("\x1b[?2026h");
    if clear {
        buf.append("\x1b[3J\x1b[2J\x1b[H");
    }
    push_joined(&mut buf, new_lines);
    buf.append("\x1b[?2026l");
    let n = new_lines.len();
    let row = if n > 0 {
        n - 1
    } else {
        0
    };
    let max = if clear {
        n
    } else if prev.max_lines_rendered >= n {
        prev.max_lines_rendered
    } else {
        n
    };
    let h = height as usize;
    let v = RenderState {
        previous_lines: copy_lines(new_lines),
        previous_width: width,
        cursor_row: row,
        hardware_cursor_row: row,
        max_lines_rendered: max,
        previous_viewport_top: if max > h {
            max - h
        } else {
            0
        },
        full_redraw_count: prev.full_redraw_count + 1,
        show_hardware_cursor: prev.show_hardware_cursor,
        clear_on_shrink: prev.clear_on_shrink,
        overlays_shown: prev.overlays_shown,
        cursor_visible: prev.cursor_visible,
    };
    let ghost fb = sync_begin() + (if clear {
        clear_all()
    } else {
        Seq::empty()
    }) + join_crlf(string_views(new_lines@)) + sync_end();
    assert(buf@ =~= fb);
    finish_frame(v, buf, cursor, n)
}

fn removed_rows_render(
    prev: &RenderState,
    new_lines: &Vec<String>,
    width: u16,
    height: u16,
    cursor: Option<(usize, usize)>,
) -> (r: (RenderState, String))
    requires
        rows_fit(prev@, new_lines@.len() as int),
        cursor matches Some(c) ==> c.1 < usize::MAX,
    ensures
        r.0@ == removed_rows_frame(prev@, string_views(new_lines@), width, height, cursor).0,
        r.1@ == removed_rows_frame(prev@, string_views(new_lines@), width, height, cursor).1,
{
    let n = new_lines.len();
    let pl = prev.previous_lines.len();
    let h = height as usize;
    let vt = if prev.max_lines_rendered > h {
        prev.max_lines_rendered - h
    } else {
        0
    };
    let mut buf = String::new();
    let mut cursor_row = prev.cursor_row;
    let mut hw = prev.hardware_cursor_row;
    if pl > n {
        let target = if n > 0 {
            n - 1
        } else {
            0
        };
        let extra = pl - n;
        buf.append("\x1b[?2026h");
        push_vmove(&mut buf, target + prev.previous_viewport_top, vt + prev.hardware_cursor_row);
        buf.append("\r");
        buf.append("\x1b[1B");
        push_repeat(&mut buf, "\r\x1b[2K\x1b[1B", extra - 1);
        buf.append("\r\x1b[2K");
        push_csi_count(&mut buf, extra, 'A');
        buf.append("\x1b[?2026l");
        cursor_row = target;
        hw = target;
        let ghost d = (target - vt) - (prev.hardware_cursor_row - prev.previous_viewport_top);
        assert(buf@ =~= sync_begin() + vmove(d) + "\r"@ + "\x1b[1B"@ + repeat("\r\x1b[2K\x1b[1B"@, (extra - 1) as nat)
            + "\r\x1b[2K"@ + csi_count(extra as nat, 'A') + sync_end());
    }
    let v = RenderState {
        previous_lines: copy_lines(new_lines),
        previous_width: width,
        cursor_row,
        hardware_cursor_row: hw,
        max_lines_rendered: prev.max_lines_rendered,
        previous_viewport_top: vt,
        full_redraw_count: prev.full_redraw_count,
        show_hardware_cursor: prev.show_hardware_cursor,
        clear_on_shrink: prev.clear_on_shrink,
        overlays_shown: prev.overlays_shown,
        cursor_visible: prev.cursor_visible,
    };
    finish_frame(v, buf, cursor, n)
}

/// Scroll the screen so that a row below the viewport comes into view.
fn push_scroll(buf: &mut String, to_bottom: usize, scroll: usize)
    ensures
        final(buf)@ == old(buf)@ + (if scroll > 0 {
            (if to_bottom > 0 {
                csi_count(to_bottom as nat, 'B')
            } else {
                Seq::empty()
            }) + repeat("\r\n"@, scroll as nat)
        } else {
            Seq::empty()
        }),
{
    let ghost b0 = buf@;
    if scroll > 0 {
        if to_bottom > 0 {
            push_csi_count(buf, to_bottom, 'B');
        }
        let ghost b1 = buf@;
        push_repeat(buf, "\r\n", scroll);
        assert(buf@ =~= b0 + ((if to_bottom > 0 {
            csi_count(to_bottom as nat, 'B')
        } else {
            Seq::empty()
        }) + repeat("\r\n"@, scroll as nat)));
    } else {
        assert(buf@ =~= b0 + Seq::<char>::empty());
    }
}

/// Clear the rows the content lost, after moving down to its last line.
fn push_shrink_tail(buf: &mut String, n: usize, end: usize, pl: usize)
    requires
        end < n,
    ensures
        final(buf)@ == old(buf)@ + (if pl > n {
            (if end < n - 1 {
                csi_count((n - 1 - end) as nat, 'B')
            } else {
                Seq::empty()
            }) + repeat("\r\n\x1b[2K"@, (pl - n) as nat) + csi_count((pl - n) as nat, 'A')
        } else {
            Seq::empty()
        }),
{
    let ghost b0 = buf@;
    if pl > n {
        let extra = pl - n;
        if end < n - 1 {
            push_csi_count(buf, n - 1 - end, 'B');
        }
        let ghost b1 = buf@;
        push_repeat(buf, "\r\n\x1b[2K", extra);
        push_csi_count(buf, extra, 'A');
        assert(buf@ =~= b0 + ((if end < n - 1 {
            csi_count((n - 1 - end) as nat, 'B')
        } else {
            Seq::empty()
        }) + repeat("\r\n\x1b[2K"@, extra as nat) + csi_count(extra as nat, 'A')));
    } else {
        assert(buf@ =~= b0 + Seq::<char>::empty());
    }
}

#[verifier::rlimit(40)]
fn push_diff_lead(buf: &mut String, prev: &RenderState, n: usize, height: u16, f: usize)
    requires
        rows_fit(prev@, n as int),
        height > 0,
        f < n,
    ensures
        final(buf)@ == old(buf)@ + diff_lead(prev@, n as int, height, f as int),
{
    let pl = prev.previous_lines.len();
    let h = height as usize;
    let append = n > pl && f == pl && f > 0;
    let vt0 = if prev.max_lines_rendered > h {
        prev.max_lines_rendered - h
    } else {
        0
    };
    let pvt0 = prev.previous_viewport_top;
    let hw0 = prev.hardware_cursor_row;
    let bottom = pvt0 + h - 1;
    let target = if append {
        f - 1
    } else {
        f
    };
    let scroll = if target > bottom {
        target - bottom
    } else {
        0
    };
    let rel = if hw0 > pvt0 {
        hw0 - pvt0
    } else {
        0
    };
    let screen_row = if rel < h - 1 {
        rel
    } else {
        h - 1
    };
    let ghost b0 = buf@;
    assert(prev@.previous_lines.len() == pl);
    assert(append == append_start(prev@, n as int, f as int));
    push_scroll(buf, h - 1 - screen_row, scroll);
    let hw = if scroll > 0 {
        target
    } else {
        hw0
    };
    push_vmove(buf, target + pvt0 + scroll, vt0 + scroll + hw);
    if append {
        buf.append("\r\n");
    } else {
        buf.append("\r");
    }
    assert(buf@ =~= b0 + diff_lead(prev@, n as int, height, f as int));
}

fn diff_render(
    prev: &RenderState,
    new_lines: &Vec<String>,
    width: u16,
    height: u16,
    cursor: Option<(usize, usize)>,
    f: usize,
    l: usize,
) -> (r: (RenderState, String))
    requires
        rows_fit(prev@, new_lines@.len() as int),
        height > 0,
        f < new_lines@.len(),
        f <= l,
        cursor matches Some(c) ==> c.1 < usize::MAX,
    ensures
        r.0@ == diff_frame(prev@, string_views(new_lines@), width, height, cursor, f as int, l as int).0,
        r.1@ == diff_frame(prev@, string_views(new_lines@), width, height, cursor, f as int, l as int).1,
{
    let ghost nv = string_views(new_lines@);
    let n = new_lines.len();
    let pl = prev.previous_lines.len();
    let h = height as usize;
    let mut buf = String::new();
    buf.append("\x1b[?2026h");
    let ghost b1 = buf@;
    push_diff_lead(&mut buf, prev, n, height, f);
    let end = if l < n - 1 {
        l
    } else {
        n - 1
    };
    push_cleared(&mut buf, new_lines, f, end + 1);
    push_shrink_tail(&mut buf, n, end, pl);
    buf.append("\x1b[?2026l");
    assert(buf@ =~= diff_bytes(prev@, nv, height, f as int, l as int));
    let max = if prev.max_lines_rendered >= n {
        prev.max_lines_rendered
    } else {
        n
    };
    let v = RenderState {
        previous_lines: copy_lines(new_lines),
        previous_width: width,
        cursor_row: n - 1,
        hardware_cursor_row: if pl > n && end < n - 1 {
            n - 1
        } else {
            end
        },
        max_lines_rendered: max,
        previous_viewport_top: if max > h {
            max - h
        } else {
            0
        },
        full_redraw_count: prev.full_redraw_count,
        show_hardware_cursor: prev.show_hardware_cursor,
        clear_on_shrink: prev.clear_on_shrink,
        overlays_shown: prev.overlays_shown,
        cursor_visible: prev.cursor_visible,
    };
    assert(v@ == diff_state(prev@, nv, width, height, l as int));
    finish_frame(v, buf, cursor, n)
}

/// Plan one frame of `new_lines` (overlays composited, cursor marker taken
/// out and line resets applied) on a `width` by `height` screen: the state
/// after it, and the bytes to write. The frame is redrawn whole on the
/// first render, a width change, a shrink with clear-on-shrink and no
/// overlays, when more removed rows changed than the screen holds, and when
/// the first change lies above the previous viewport; otherwise only the
/// rows from the first change to the last are rewritten, inside
/// synchronized output, and nothing but the cursor placement is written
/// when no row changed. Row counts stay within the range the cursor-move
/// arithmetic is made for.
pub fn plan_render(
    prev: &RenderState,
    new_lines: &Vec<String>,
    width: u16,
    height: u16,
    cursor: Option<(usize, usize)>,
) -> (r: (RenderState, String))
    requires
        height > 0,
        rows_fit(prev@, new_lines@.len() as int),
        prev.full_redraw_count < u32::MAX,
        cursor matches Some(c) ==> c.1 < usize::MAX,
    ensures
        r.0@ == render_plan(prev@, string_views(new_lines@), width, height, cursor).0,
        r.1@ == render_plan(prev@, string_views(new_lines@), width, height, cursor).1,
{
    let ghost pv = prev@.previous_lines;
    let ghost nv = string_views(new_lines@);
    let n = new_lines.len();
    let pl = prev.previous_lines.len();
    let h = height as usize;
    let width_changed = prev.previous_width != 0 && prev.previous_width != width;
    if pl == 0 && !width_changed {
        return full_render(prev, new_lines, width, height, false, cursor);
    }
    if width_changed {
        return full_render(prev, new_lines, width, height, true, cursor);
    }
    if prev.clear_on_shrink && n < prev.max_lines_rendered && !prev.overlays_shown {
        return full_render(prev, new_lines, width, height, true, cursor);
    }
    let max_len = if n > pl {
        n
    } else {
        pl
    };
    let mut first: Option<usize> = None;
    let mut last: usize = 0;
    let mut i: usize = 0;
    while i < max_len
        invariant
            i <= max_len,
            max_len == max_of(pv.len() as int, nv.len() as int),
            pv == string_views(prev.previous_lines@),
            nv == string_views(new_lines@),
            match first {
                Some(x) => first_change(pv, nv, i as int) == Some(x as int),
                None => first_change(pv, nv, i as int) is None,
            },
            last == last_change(pv, nv, i as int),
        decreases max_len - i,
    {
        if row_differs(&prev.previous_lines, new_lines, i) {
            if first.is_none() {
                first = Some(i);
            }
            last = i;
        }
        i = i + 1;
    }
    proof {
        lemma_first_before_last(pv, nv, max_len as int);
    }
    if n > pl {
        if first.is_none() {
            first = Some(pl);
        }
        last = n - 1;
    }
    assert(match first {
        Some(x) => frame_first_change(pv, nv) == Some(x as int),
        None => frame_first_change(pv, nv) is None,
    });
    assert(last == frame_last_change(pv, nv));
    match first {
        None => {
            let v = RenderState {
                previous_lines: copy_lines(&prev.previous_lines),
                previous_width: prev.previous_width,
                cursor_row: prev.cursor_row,
                hardware_cursor_row: prev.hardware_cursor_row,
                max_lines_rendered: prev.max_lines_rendered,
                previous_viewport_top: if prev.max_lines_rendered > h {
                    prev.max_lines_rendered - h
                } else {
                    0
                },
                full_redraw_count: prev.full_redraw_count,
                show_hardware_cursor: prev.show_hardware_cursor,
                clear_on_shrink: prev.clear_on_shrink,
                overlays_shown: prev.overlays_shown,
                cursor_visible: prev.cursor_visible,
            };
            finish_frame(v, String::new(), cursor, n)
        },
        Some(f) => {
            if f >= n {
                if pl > n && pl - n > h {
                    return full_render(prev, new_lines, width, height, true, cursor);
                }
                return removed_rows_render(prev, new_lines, width, height, cursor);
            }
            let top = if pl > h {
                pl - h
            } else {
                0
            };
            if f < top {
                return full_render(prev, new_lines, width, height, true, cursor);
            }
            diff_render(prev, new_lines, width, height, cursor, f, last)
        },
    }
}

proof fn lemma_first_change_rows(a: Seq<Seq<char>>, b: Seq<Seq<char>>, k: int)
    ensures
        match first_change(a, b, k) {
            Some(f) => 0 <= f < k && row_changed(a, b, f) && forall|i: int| 0 <= i < f ==> !row_changed(a, b, i),
            None => forall|i: int| 0 <= i < k ==> !row_changed(a, b, i),
        },
    decreases k,
{
    if k > 0 {
        lemma_first_change_rows(a, b, k - 1);
    }
}

proof fn lemma_last_change_rows(a: Seq<Seq<char>>, b: Seq<Seq<char>>, k: int)
    ensures
        forall|i: int| last_change(a, b, k) < i < k ==> !row_changed(a, b, i),
    decreases k,
{
    if k > 0 {
        lemma_last_change_rows(a, b, k - 1);
    }
}

/// What a frame writes. It is redrawn whole (and counted as such) exactly
/// when `redraw_whole` says so. Otherwise, when no row changed, only the
/// cursor placement is written, so nothing without a cursor. Otherwise,
/// when a row within the new lines changed, the rows from the first change
/// to the last are rewritten, inside synchronized output, and no row before
/// the first change or after the last differs between the frames.
pub proof fn law_frame_contents(
    p: RenderView,
    n: Seq<Seq<char>>,
    width: u16,
    height: u16,
    cursor: Option<(usize, usize)>,
)
    requires
        p.full_redraw_count < u32::MAX,
    ensures
        (render_plan(p, n, width, height, cursor).0.full_redraw_count == p.full_redraw_count + 1) == (redraw_whole(
            p,
            n,
            width,
            height,
        ) is Some),
        redraw_whole(p, n, width, height) is None ==> render_plan(p, n, width, height, cursor).0.full_redraw_count
            == p.full_redraw_count,
        redraw_whole(p, n, width, height) is None && frame_first_change(p.previous_lines, n) is None ==> ({
            let c = cursor_plan(p.hardware_cursor_row, cursor, n.len() as int, p.show_hardware_cursor);
            &&& render_plan(p, n, width, height, cursor).1 == c.1
            &&& forall|i: int| 0 <= i < max_of(p.previous_lines.len() as int, n.len() as int) ==> !row_changed(p.previous_lines, n, i)
        }),
        redraw_whole(p, n, width, height) is None && cursor is None && frame_first_change(p.previous_lines, n) is None
            ==> render_plan(p, n, width, height, cursor).1.len() == 0,
        redraw_whole(p, n, width, height) is None && frame_first_change(p.previous_lines, n) is Some
            && frame_first_change(p.previous_lines, n).unwrap() < n.len() ==> ({
            let f = frame_first_change(p.previous_lines, n).unwrap();
            let l = frame_last_change(p.previous_lines, n);
            let end = diff_end(n, l);
            let v = diff_state(p, n, width, height, l);
            let c = cursor_plan(v.hardware_cursor_row, cursor, n.len() as int, p.show_hardware_cursor);
            &&& f <= end
            &&& render_plan(p, n, width, height, cursor).1 == sync_begin() + diff_lead(p, n.len() as int, height, f)
                + join_cleared(n.subrange(f, end + 1)) + shrink_tail(p, n, end) + sync_end() + c.1
            &&& forall|i: int| 0 <= i < f ==> !row_changed(p.previous_lines, n, i)
            &&& forall|i: int| l < i < max_of(p.previous_lines.len() as int, n.len() as int) ==> !row_changed(
                p.previous_lines,
                n,
                i,
            )
        }),
{
    let pl = p.previous_lines;
    let k = max_of(pl.len() as int, n.len() as int);
    lemma_first_change_rows(pl, n, k);
    lemma_last_change_rows(pl, n, k);
    lemma_first_before_last(pl, n, k);
}

} // verus!
