//! Single-line text input: grapheme-aware cursor movement, Emacs-style kill
//! ring, word motion, undo and bracketed paste. The cursor is a byte offset
//! into the value.

use vstd::prelude::*;
use vstd::string::*;
use vstd::utf8::*;

use super::editor::editing::{first_grapheme_at, first_grapheme_len, last_grapheme_before, last_grapheme_len};
use super::editor::motion::{lemma_grapheme_prefix_boundary, word_back_col, word_back_target, word_fwd_col, word_fwd_target, ws_class, is_ws_class};
use crate::graphemes::{grapheme_strings, graphemes};
use crate::keybindings::{binding_matches, bound, default_keys, EditorAction, EditorKeybindingsManager};
use crate::kill_ring::{pushed, rotated, KillRing};
use crate::component::InputResult;
use crate::strs::{
    byte_len, concat_all, lemma_boundary_skip, lemma_encode_concat,
    byte_length, chars_of, contains_chars, cut_str, find_chars, lemma_boundary_ends,
    lemma_remove_from_len, lemma_seq_find_some, lemma_splice_chars, remove_all, remove_from,
    seq_find, splice, splice_str, str_eq, string_from_range, string_views, substring_bytes,
};

verus! {

/// The previous edit, for kill accumulation, yank-pop and undo coalescing.
#[derive(Debug, Clone, Copy, PartialEq, Eq, Structural)]
pub enum LastAction {
    Kill,
    Yank,
    TypeWord,
}

/// A snapshot for undo.
pub struct InputState {
    value: String,
    cursor: usize,
}

/// What handling a key asks of the owner of the input.
pub enum InputEvent {
    Nothing,
    /// Enter: the current value.
    Submit(String),
    /// Escape.
    Escape,
}

/// `InputEvent` with its text as characters.
pub enum InputEffect {
    Nothing,
    Submit(Seq<char>),
    Escape,
}

impl View for InputEvent {
    type V = InputEffect;

    open spec fn view(&self) -> InputEffect {
        match self {
            InputEvent::Nothing => InputEffect::Nothing,
            InputEvent::Submit(s) => InputEffect::Submit(s@),
            InputEvent::Escape => InputEffect::Escape,
        }
    }
}

/// Abstract input: the value's UTF-8 bytes, the cursor (a byte offset),
/// the kill ring, the previous edit, the undo snapshots (bytes, cursor),
/// and the bracketed-paste state.
pub struct InputView {
    pub value: Seq<u8>,
    pub cursor: int,
    pub ring: Seq<Seq<char>>,
    pub last: Option<LastAction>,
    pub undo: Seq<(Seq<u8>, int)>,
    pub in_paste: bool,
    pub paste: Seq<char>,
    pub focused: bool,
}

/// Single-line text input.
pub struct Input {
    value: String,
    cursor: usize,
    focused: bool,
    paste_buffer: String,
    is_in_paste: bool,
    kill_ring: KillRing,
    last_action: Option<LastAction>,
    undo_stack: Vec<InputState>,
    keys: EditorKeybindingsManager,
}

/// `c` is a character boundary of `b`.
pub open spec fn at_boundary(b: Seq<u8>, c: int) -> bool {
    0 <= c <= b.len() && is_char_boundary(b, c)
}

/// Right after a yank, the yanked text can be taken back: the offset where
/// it starts (or 0) is a character boundary.
pub open spec fn yank_ok(v: InputView) -> bool {
    v.last == Some(LastAction::Yank) && v.ring.len() > 1 ==> is_char_boundary(
        v.value,
        if v.cursor >= encode_utf8(v.ring.last()).len() {
            v.cursor - encode_utf8(v.ring.last()).len()
        } else {
            0
        },
    )
}

/// The cursor and every undo snapshot's cursor sit on a character boundary.
pub open spec fn cursors_ok(v: InputView) -> bool {
    &&& valid_utf8(v.value)
    &&& at_boundary(v.value, v.cursor)
    &&& forall|i: int| 0 <= i < v.undo.len() ==> valid_utf8(#[trigger] v.undo[i].0) && at_boundary(v.undo[i].0, v.undo[i].1)
}

/// Well-formed input: the cursors sit on character boundaries and a yank
/// can be taken back.
pub open spec fn input_wf(v: InputView) -> bool {
    cursors_ok(v) && yank_ok(v)
}

/// `v` with its value and cursor saved for undo.
pub open spec fn saved(v: InputView) -> InputView {
    InputView { undo: v.undo.push((v.value, v.cursor)), ..v }
}

/// Insert `t` at the cursor (typing). Typing text without white space
/// right after typing joins the previous undo step.
pub open spec fn typed(v: InputView, t: Seq<char>) -> InputView {
    let w = encode_utf8(t);
    let chunk = forall|i: int| 0 <= i < graphemes(t).len() ==> !ws_class(#[trigger] graphemes(t)[i], true);
    InputView {
        value: splice(v.value, v.cursor, v.cursor, w),
        cursor: v.cursor + w.len(),
        last: Some(LastAction::TypeWord),
        undo: if !chunk || v.last != Some(LastAction::TypeWord) {
            v.undo.push((v.value, v.cursor))
        } else {
            v.undo
        },
        ..v
    }
}

/// Backspace: remove the grapheme before the cursor.
pub open spec fn backspaced(v: InputView) -> InputView {
    if v.cursor == 0 {
        InputView { last: None, ..v }
    } else {
        let g = last_grapheme_len(decode_utf8(v.value.take(v.cursor)));
        InputView {
            value: splice(v.value, v.cursor - g, v.cursor, Seq::empty()),
            cursor: v.cursor - g,
            last: None,
            undo: v.undo.push((v.value, v.cursor)),
            ..v
        }
    }
}

/// Delete: remove the grapheme at the cursor.
pub open spec fn forward_deleted(v: InputView) -> InputView {
    if v.cursor >= v.value.len() {
        InputView { last: None, ..v }
    } else {
        let g = first_grapheme_len(decode_utf8(v.value.skip(v.cursor)));
        InputView {
            value: splice(v.value, v.cursor, v.cursor + g, Seq::empty()),
            last: None,
            undo: v.undo.push((v.value, v.cursor)),
            ..v
        }
    }
}

/// Remove the bytes from `a` to `b` into the kill ring (in front of the
/// previous kill when `backward`), the cursor going to `a`.
pub open spec fn killed(v: InputView, a: int, b: int, backward: bool) -> InputView {
    InputView {
        value: splice(v.value, a, b, Seq::empty()),
        cursor: a,
        ring: pushed(v.ring, decode_utf8(v.value.subrange(a, b)), backward, v.last == Some(LastAction::Kill)),
        last: Some(LastAction::Kill),
        undo: v.undo.push((v.value, v.cursor)),
        ..v
    }
}

/// Ctrl+U: kill from the start of the value to the cursor.
pub open spec fn killed_to_start(v: InputView) -> InputView {
    if v.cursor == 0 {
        v
    } else {
        killed(v, 0, v.cursor, true)
    }
}

/// Ctrl+K: kill from the cursor to the end of the value.
pub open spec fn killed_to_end(v: InputView) -> InputView {
    if v.cursor >= v.value.len() {
        v
    } else {
        killed(v, v.cursor, v.value.len() as int, false)
    }
}

/// Kill the word before the cursor.
pub open spec fn word_killed_back(v: InputView) -> InputView {
    if v.cursor == 0 {
        v
    } else {
        killed(v, word_back_col(v.value, v.cursor, true), v.cursor, true)
    }
}

/// Kill the word after the cursor.
pub open spec fn word_killed_fwd(v: InputView) -> InputView {
    if v.cursor >= v.value.len() {
        v
    } else {
        killed(v, v.cursor, word_fwd_col(v.value, v.cursor, true), false)
    }
}

/// Ctrl+Y: insert the most recent kill at the cursor.
pub open spec fn yanked(v: InputView) -> InputView {
    if v.ring.len() == 0 {
        v
    } else {
        let t = encode_utf8(v.ring.last());
        InputView {
            value: splice(v.value, v.cursor, v.cursor, t),
            cursor: v.cursor + t.len(),
            last: Some(LastAction::Yank),
            undo: v.undo.push((v.value, v.cursor)),
            ..v
        }
    }
}

/// Alt+Y right after a yank: replace the yanked text with the next older
/// kill.
pub open spec fn yank_popped(v: InputView) -> InputView {
    if v.last != Some(LastAction::Yank) || v.ring.len() <= 1 {
        v
    } else {
        let p = encode_utf8(v.ring.last()).len();
        let s = if v.cursor >= p {
            v.cursor - p
        } else {
            0
        };
        let r = rotated(v.ring);
        let t = encode_utf8(r.last());
        InputView {
            value: splice(v.value, s, v.cursor, t),
            cursor: s + t.len(),
            ring: r,
            last: Some(LastAction::Yank),
            undo: v.undo.push((v.value, v.cursor)),
            ..v
        }
    }
}

/// Undo: go back to the most recent snapshot.
pub open spec fn undone(v: InputView) -> InputView {
    if v.undo.len() == 0 {
        v
    } else {
        InputView {
            value: v.undo.last().0,
            cursor: v.undo.last().1,
            undo: v.undo.drop_last(),
            last: None,
            ..v
        }
    }
}

/// Left: one grapheme back.
pub open spec fn moved_left(v: InputView) -> InputView {
    if v.cursor == 0 {
        InputView { last: None, ..v }
    } else {
        InputView {
            cursor: v.cursor - last_grapheme_len(decode_utf8(v.value.take(v.cursor))),
            last: None,
            ..v
        }
    }
}

/// Right: one grapheme forward.
pub open spec fn moved_right(v: InputView) -> InputView {
    if v.cursor >= v.value.len() {
        InputView { last: None, ..v }
    } else {
        InputView {
            cursor: v.cursor + first_grapheme_len(decode_utf8(v.value.skip(v.cursor))),
            last: None,
            ..v
        }
    }
}

/// Word left: past white space, then a punctuation run or a word run.
pub open spec fn moved_word_left(v: InputView) -> InputView {
    if v.cursor == 0 {
        v
    } else {
        InputView { cursor: word_back_col(v.value, v.cursor, true), last: None, ..v }
    }
}

/// Word right: past white space, then a punctuation run or a word run.
pub open spec fn moved_word_right(v: InputView) -> InputView {
    if v.cursor >= v.value.len() {
        v
    } else {
        InputView { cursor: word_fwd_col(v.value, v.cursor, true), last: None, ..v }
    }
}

/// The cursor moved to byte offset `c`, ending any kill or yank sequence.
pub open spec fn moved_to(v: InputView, c: int) -> InputView {
    InputView { cursor: c, last: None, ..v }
}

/// `t` without carriage returns and line feeds.
pub open spec fn without_newlines(t: Seq<char>) -> Seq<char> {
    t.filter(|c: char| c != '\r' && c != '\n')
}

/// Paste `t` at the cursor, line breaks removed.
pub open spec fn pasted(v: InputView, t: Seq<char>) -> InputView {
    let w = encode_utf8(without_newlines(t));
    InputView {
        value: splice(v.value, v.cursor, v.cursor, w),
        cursor: v.cursor + w.len(),
        last: None,
        undo: v.undo.push((v.value, v.cursor)),
        ..v
    }
}

/// Start of a bracketed paste: `ESC [ 2 0 0 ~`.
pub open spec fn paste_start() -> Seq<char> {
    seq!['\x1b', '[', '2', '0', '0', '~']
}

/// End of a bracketed paste: `ESC [ 2 0 1 ~`.
pub open spec fn paste_end() -> Seq<char> {
    seq!['\x1b', '[', '2', '0', '1', '~']
}

/// A control character: C0, DEL or C1.
pub open spec fn control_char(c: char) -> bool {
    (c as u32) < 32 || c as u32 == 0x7f || (0x80 <= (c as u32) && (c as u32) <= 0x9f)
}

/// `s` holds a control character.
pub open spec fn has_control(s: Seq<char>) -> bool {
    exists|i: int| 0 <= i < s.len() && control_char(#[trigger] s[i])
}

/// What a key does to the input.
#[derive(Debug, Clone, Copy, PartialEq, Eq, Structural)]
pub enum InputKey {
    Cancel,
    Undo,
    Submit,
    Backspace,
    Delete,
    DeleteWordBackward,
    DeleteWordForward,
    DeleteToStart,
    DeleteToEnd,
    Yank,
    YankPop,
    Left,
    Right,
    Home,
    End,
    WordLeft,
    WordRight,
    Text,
    Other,
}

/// The first binding, in this order, that `data` answers to; then text
/// without control characters; else nothing.
pub open spec fn key_of(data: Seq<char>) -> InputKey {
    if bound(EditorAction::SelectCancel, data) {
        InputKey::Cancel
    } else if bound(EditorAction::Undo, data) {
        InputKey::Undo
    } else if bound(EditorAction::Submit, data) || data == seq!['\n'] {
        InputKey::Submit
    } else if bound(EditorAction::DeleteCharBackward, data) {
        InputKey::Backspace
    } else if bound(EditorAction::DeleteCharForward, data) {
        InputKey::Delete
    } else if bound(EditorAction::DeleteWordBackward, data) {
        InputKey::DeleteWordBackward
    } else if bound(EditorAction::DeleteWordForward, data) {
        InputKey::DeleteWordForward
    } else if bound(EditorAction::DeleteToLineStart, data) {
        InputKey::DeleteToStart
    } else if bound(EditorAction::DeleteToLineEnd, data) {
        InputKey::DeleteToEnd
    } else if bound(EditorAction::Yank, data) {
        InputKey::Yank
    } else if bound(EditorAction::YankPop, data) {
        InputKey::YankPop
    } else if bound(EditorAction::CursorLeft, data) {
        InputKey::Left
    } else if bound(EditorAction::CursorRight, data) {
        InputKey::Right
    } else if bound(EditorAction::CursorLineStart, data) {
        InputKey::Home
    } else if bound(EditorAction::CursorLineEnd, data) {
        InputKey::End
    } else if bound(EditorAction::CursorWordLeft, data) {
        InputKey::WordLeft
    } else if bound(EditorAction::CursorWordRight, data) {
        InputKey::WordRight
    } else if !has_control(data) {
        InputKey::Text
    } else {
        InputKey::Other
    }
}

/// The input after a key (outside a paste), what is answered, and what is
/// asked of the owner.
pub open spec fn key_step(v: InputView, data: Seq<char>) -> (InputView, InputResult, InputEffect) {
    match key_of(data) {
        InputKey::Cancel => (v, InputResult::Consumed, InputEffect::Escape),
        InputKey::Undo => (undone(v), InputResult::Consumed, InputEffect::Nothing),
        InputKey::Submit => (v, InputResult::Consumed, InputEffect::Submit(decode_utf8(v.value))),
        InputKey::Backspace => (backspaced(v), InputResult::Consumed, InputEffect::Nothing),
        InputKey::Delete => (forward_deleted(v), InputResult::Consumed, InputEffect::Nothing),
        InputKey::DeleteWordBackward => (word_killed_back(v), InputResult::Consumed, InputEffect::Nothing),
        InputKey::DeleteWordForward => (word_killed_fwd(v), InputResult::Consumed, InputEffect::Nothing),
        InputKey::DeleteToStart => (killed_to_start(v), InputResult::Consumed, InputEffect::Nothing),
        InputKey::DeleteToEnd => (killed_to_end(v), InputResult::Consumed, InputEffect::Nothing),
        InputKey::Yank => (yanked(v), InputResult::Consumed, InputEffect::Nothing),
        InputKey::YankPop => (yank_popped(v), InputResult::Consumed, InputEffect::Nothing),
        InputKey::Left => (moved_left(v), InputResult::Consumed, InputEffect::Nothing),
        InputKey::Right => (moved_right(v), InputResult::Consumed, InputEffect::Nothing),
        InputKey::Home => (moved_to(v, 0), InputResult::Consumed, InputEffect::Nothing),
        InputKey::End => (moved_to(v, v.value.len() as int), InputResult::Consumed, InputEffect::Nothing),
        InputKey::WordLeft => (moved_word_left(v), InputResult::Consumed, InputEffect::Nothing),
        InputKey::WordRight => (moved_word_right(v), InputResult::Consumed, InputEffect::Nothing),
        InputKey::Text => (typed(v, data), InputResult::Consumed, InputEffect::Nothing),
        InputKey::Other => (v, InputResult::Ignored, InputEffect::Nothing),
    }
}

/// Bracketed paste: `None` when `data` neither starts a paste nor arrives
/// during one; else the input after buffering `data` (a start marker drops
/// what was buffered and is removed) and, once the end marker is buffered,
/// pasting what precedes it, with the input that follows the end marker.
pub open spec fn paste_phase(v: InputView, data: Seq<char>) -> Option<(InputView, Seq<char>)> {
    let starts = seq_find(data, paste_start(), 0) is Some;
    let v1 = if starts {
        InputView { in_paste: true, paste: remove_from(data, paste_start(), 0), ..v }
    } else {
        v
    };
    if !v1.in_paste {
        None
    } else {
        let buf = if starts {
            v1.paste
        } else {
            v1.paste + data
        };
        match seq_find(buf, paste_end(), 0) {
            Some(e) => Some(
                (
                    InputView { in_paste: false, paste: Seq::empty(), ..pasted(v1, buf.take(e)) },
                    buf.skip(e + 6),
                ),
            ),
            None => Some((InputView { paste: buf, ..v1 }, Seq::empty())),
        }
    }
}

pub proof fn lemma_paste_phase_shrinks(v: InputView, data: Seq<char>)
    ensures
        paste_phase(v, data) matches Some((v2, rest)) ==> rest.len() == 0 || v2.paste.len() + rest.len()
            < v.paste.len() + data.len(),
{
    let starts = seq_find(data, paste_start(), 0) is Some;
    lemma_remove_from_len(data, paste_start(), 0);
    let v1 = if starts {
        InputView { in_paste: true, paste: remove_from(data, paste_start(), 0), ..v }
    } else {
        v
    };
    let buf = if starts {
        v1.paste
    } else {
        v1.paste + data
    };
    lemma_seq_find_some(buf, paste_end(), 0);
}

/// The input after handling `data`, what is answered, and what is asked of
/// the owner: a paste takes the input (answering `Consumed`), and input that
/// follows a paste's end marker is handled in turn, its request passed on.
#[verifier::opaque]
pub open spec fn handled(v: InputView, data: Seq<char>) -> (InputView, InputResult, InputEffect)
    decreases v.paste.len() + data.len(),
{
    match paste_phase(v, data) {
        None => key_step(v, data),
        Some((v2, rest)) => if rest.len() > 0 {
            proof {
                lemma_paste_phase_shrinks(v, data);
            }
            let h = handled(v2, rest);
            (h.0, InputResult::Consumed, h.2)
        } else {
            (v2, InputResult::Consumed, InputEffect::Nothing)
        },
    }
}

/// Outside a paste, `handled` is `key_step`.
pub proof fn lemma_handled_key(v: InputView, data: Seq<char>)
    requires
        paste_phase(v, data) is None,
    ensures
        handled(v, data) == key_step(v, data),
{
    reveal(handled);
}

/// A paste with nothing after its end marker (or still open) consumes the
/// input.
pub proof fn lemma_handled_paste(v: InputView, data: Seq<char>, v2: InputView)
    requires
        paste_phase(v, data) == Some((v2, Seq::<char>::empty())),
    ensures
        handled(v, data) == (v2, InputResult::Consumed, InputEffect::Nothing),
{
    reveal(handled);
}

/// Input after a paste's end marker is handled in turn.
pub proof fn lemma_handled_rest(v: InputView, data: Seq<char>, v2: InputView, rest: Seq<char>)
    requires
        paste_phase(v, data) == Some((v2, rest)),
        rest.len() > 0,
    ensures
        handled(v, data) == (handled(v2, rest).0, InputResult::Consumed, handled(v2, rest).2),
{
    reveal(handled);
}

/// Killing to the end of the value and yanking puts the value back, with
/// the cursor at its end (when the kill did not join a previous one).
pub proof fn law_kill_to_end_then_yank(v: InputView)
    requires
        input_wf(v),
        v.cursor < v.value.len(),
        v.last != Some(LastAction::Kill),
    ensures
        yanked(killed_to_end(v)).value == v.value,
        yanked(killed_to_end(v)).cursor == v.value.len(),
{
    broadcast use encode_utf8_valid_utf8, decode_utf8_encode_utf8;

    let c = v.cursor;
    is_char_boundary_start_end_of_seq(v.value);
    lemma_boundary_skip(v.value, c, v.value.len() as int);
    assert(v.value.subrange(c, v.value.len() as int) =~= v.value.skip(c));
    let k = killed_to_end(v);
    assert(k.ring.last() == decode_utf8(v.value.skip(c)));
    assert(k.value =~= v.value.take(c));
    assert(splice(k.value, c, c, v.value.skip(c)) =~= v.value);
}

/// One undo takes back any edit made by a key other than typing (which
/// joins runs of word characters into one step): value and cursor return
/// to what they were.
pub proof fn law_undo_after_key(v: InputView, data: Seq<char>)
    requires
        input_wf(v),
        key_of(data) != InputKey::Text,
        key_of(data) != InputKey::Undo,
        key_step(v, data).0.value != v.value,
    ensures
        undone(key_step(v, data).0).value == v.value,
        undone(key_step(v, data).0).cursor == v.cursor,
{
}

impl View for Input {
    type V = InputView;

    closed spec fn view(&self) -> InputView {
        InputView {
            value: encode_utf8(self.value@),
            cursor: self.cursor as int,
            ring: self.kill_ring@,
            last: self.last_action,
            undo: self.undo_stack@.map_values(|s: InputState| (encode_utf8(s.value@), s.cursor as int)),
            in_paste: self.is_in_paste,
            paste: self.paste_buffer@,
            focused: self.focused,
        }
    }
}

impl Input {
    /// The input is well formed and answers to the default key bindings.
    pub closed spec fn inv(&self) -> bool {
        &&& input_wf(self@)
        &&& forall|a: EditorAction| #[trigger] self.keys.keys_of(a) == default_keys(a)
    }

    pub fn new() -> (r: Self)
        ensures
            r.inv(),
            r@.value.len() == 0,
            r@.cursor == 0,
            r@.ring.len() == 0,
            r@.last is None,
            r@.undo.len() == 0,
            !r@.in_paste,
            r@.paste.len() == 0,
            !r@.focused,
    {
        let r = Input {
            value: String::new(),
            cursor: 0,
            focused: false,
            paste_buffer: String::new(),
            is_in_paste: false,
            kill_ring: KillRing::new(),
            last_action: None,
            undo_stack: Vec::new(),
            keys: EditorKeybindingsManager::new(),
        };
        proof {
            assert(r@.value =~= Seq::<u8>::empty());
            lemma_boundary_ends(r.value@);
        }
        r
    }

    /// The current value.
    pub fn value(&self) -> (r: &str)
        ensures
            encode_utf8(r@) == self@.value,
    {
        self.value.as_str()
    }

    /// The cursor, a byte offset into the value.
    pub fn cursor(&self) -> (r: usize)
        ensures
            r == self@.cursor,
    {
        self.cursor
    }

    /// The kill ring.
    pub fn kill_ring(&self) -> (r: &KillRing)
        ensures
            r@ == self@.ring,
    {
        &self.kill_ring
    }

    /// Move the cursor to byte offset `pos`, clamped to the end of the value.
    pub fn set_cursor(&mut self, pos: usize)
        requires
            old(self).inv(),
            pos < old(self)@.value.len() ==> is_char_boundary(old(self)@.value, pos as int),
            yank_ok(InputView { cursor: if pos < old(self)@.value.len() { pos as int } else { old(self)@.value.len() as int }, ..old(self)@ }),
        ensures
            final(self).inv(),
            final(self)@ == (InputView {
                cursor: if pos < old(self)@.value.len() {
                    pos as int
                } else {
                    old(self)@.value.len() as int
                },
                ..old(self)@
            }),
    {
        let n = byte_length(self.value.as_str());
        proof {
            lemma_boundary_ends(self.value@);
        }
        self.cursor = if pos < n {
            pos
        } else {
            n
        };
    }

    /// Save the value and cursor for undo.
    pub fn push_undo(&mut self)
        requires
            old(self).inv(),
        ensures
            final(self).inv(),
            final(self)@ == saved(old(self)@),
    {
        let snap = InputState { value: self.value.clone(), cursor: self.cursor };
        self.undo_stack.push(snap);
        proof {
            assert(self@.undo =~= old(self)@.undo.push((old(self)@.value, old(self)@.cursor)));
        }
    }

    /// Go back to the most recent undo snapshot, if any.
    pub fn undo(&mut self)
        requires
            old(self).inv(),
        ensures
            final(self).inv(),
            final(self)@ == undone(old(self)@),
    {
        let n = self.undo_stack.len();
        if n == 0 {
            return;
        }
        let ghost u = self@.undo;
        let snap = self.undo_stack.pop().unwrap();
        proof {
            assert(u[n - 1] == (encode_utf8(snap.value@), snap.cursor as int));
            assert(self@.undo =~= u.drop_last());
        }
        self.value = snap.value;
        self.cursor = snap.cursor;
        self.last_action = None;
    }

    /// Replace the text between byte offsets `a` and `b` with `ins`; the
    /// cursor goes to `a` plus the length of `ins` when `after`, else to `a`.
    fn replace_range(&mut self, a: usize, b: usize, ins: &str, after: bool)
        requires
            cursors_ok(old(self)@),
            a <= b <= old(self)@.value.len(),
            is_char_boundary(old(self)@.value, a as int),
            is_char_boundary(old(self)@.value, b as int),
        ensures
            final(self)@ == (InputView {
                value: splice(old(self)@.value, a as int, b as int, encode_utf8(ins@)),
                cursor: if after { a + encode_utf8(ins@).len() } else { a as int },
                ..old(self)@
            }),
            valid_utf8(final(self)@.value),
            at_boundary(final(self)@.value, a as int),
            at_boundary(final(self)@.value, a + encode_utf8(ins@).len()),
            final(self).keys == old(self).keys,
    {
        let nv = splice_str(self.value.as_str(), a, b, ins);
        let n = byte_length(ins);
        let total = byte_length(nv.as_str());
        proof {
            broadcast use encode_utf8_valid_utf8;

            lemma_splice_chars(self.value@, a as int, b as int, ins@, nv@);
        }
        self.value = nv;
        self.cursor = if after {
            a + n
        } else {
            a
        };
    }

    /// Insert `text` at the cursor, as typing does.
    pub fn insert_text(&mut self, text: &str)
        requires
            old(self).inv(),
        ensures
            final(self).inv(),
            final(self)@ == typed(old(self)@, text@),
    {
        let chunk = is_word_chunk(text);
        if !chunk || !matches!(self.last_action, Some(LastAction::TypeWord)) {
            self.push_undo();
        }
        self.last_action = Some(LastAction::TypeWord);
        let c = self.cursor;
        self.replace_range(c, c, text, true);
    }

    /// Delete the grapheme before the cursor.
    pub fn handle_backspace(&mut self)
        requires
            old(self).inv(),
        ensures
            final(self).inv(),
            final(self)@ == backspaced(old(self)@),
    {
        self.last_action = None;
        if self.cursor == 0 {
            return;
        }
        self.push_undo();
        let c = self.cursor;
        let g = last_grapheme_before(self.value.as_str(), c);
        proof {
            assert(encode_utf8(Seq::<char>::empty()) =~= Seq::<u8>::empty());
        }
        self.replace_range(c - g, c, "", false);
        proof {
            reveal_strlit("");
        }
    }

    /// Delete the grapheme at the cursor.
    pub fn handle_forward_delete(&mut self)
        requires
            old(self).inv(),
        ensures
            final(self).inv(),
            final(self)@ == forward_deleted(old(self)@),
    {
        self.last_action = None;
        let n = byte_length(self.value.as_str());
        if self.cursor >= n {
            return;
        }
        self.push_undo();
        let c = self.cursor;
        let g = first_grapheme_at(self.value.as_str(), c);
        proof {
            assert(encode_utf8(Seq::<char>::empty()) =~= Seq::<u8>::empty());
        }
        self.replace_range(c, c + g, "", false);
        proof {
            reveal_strlit("");
        }
    }

    /// Kill the text between byte offsets `a` and `b`.
    fn kill_range(&mut self, a: usize, b: usize, backward: bool)
        requires
            old(self).inv(),
            a <= b <= old(self)@.value.len(),
            is_char_boundary(old(self)@.value, a as int),
            is_char_boundary(old(self)@.value, b as int),
        ensures
            final(self).inv(),
            final(self)@ == killed(old(self)@, a as int, b as int, backward),
    {
        let was_kill = matches!(self.last_action, Some(LastAction::Kill));
        self.push_undo();
        let deleted = substring_bytes(self.value.as_str(), a, b);
        proof {
            broadcast use encode_utf8_decode_utf8;

        }
        self.kill_ring.push(deleted.as_str(), backward, was_kill);
        self.last_action = Some(LastAction::Kill);
        proof {
            assert(encode_utf8(Seq::<char>::empty()) =~= Seq::<u8>::empty());
            reveal_strlit("");
        }
        self.replace_range(a, b, "", false);
    }

    /// Kill from the start of the value to the cursor.
    pub fn delete_to_line_start(&mut self)
        requires
            old(self).inv(),
        ensures
            final(self).inv(),
            final(self)@ == killed_to_start(old(self)@),
    {
        if self.cursor == 0 {
            return;
        }
        proof {
            lemma_boundary_ends(self.value@);
        }
        let c = self.cursor;
        self.kill_range(0, c, true);
    }

    /// Kill from the cursor to the end of the value.
    pub fn delete_to_line_end(&mut self)
        requires
            old(self).inv(),
        ensures
            final(self).inv(),
            final(self)@ == killed_to_end(old(self)@),
    {
        let n = byte_length(self.value.as_str());
        if self.cursor >= n {
            return;
        }
        proof {
            lemma_boundary_ends(self.value@);
        }
        let c = self.cursor;
        self.kill_range(c, n, false);
    }

    /// Kill the word before the cursor.
    pub fn delete_word_backwards(&mut self)
        requires
            old(self).inv(),
        ensures
            final(self).inv(),
            final(self)@ == word_killed_back(old(self)@),
    {
        if self.cursor == 0 {
            return;
        }
        let c = self.cursor;
        let a = word_back_target(self.value.as_str(), c, true);
        self.kill_range(a, c, true);
    }

    /// Kill the word after the cursor.
    pub fn delete_word_forward(&mut self)
        requires
            old(self).inv(),
        ensures
            final(self).inv(),
            final(self)@ == word_killed_fwd(old(self)@),
    {
        let n = byte_length(self.value.as_str());
        if self.cursor >= n {
            return;
        }
        let c = self.cursor;
        let b = word_fwd_target(self.value.as_str(), c, true);
        self.kill_range(c, b, false);
    }

    /// Insert the most recent kill at the cursor.
    pub fn yank(&mut self)
        requires
            old(self).inv(),
        ensures
            final(self).inv(),
            final(self)@ == yanked(old(self)@),
    {
        let text = match self.kill_ring.peek() {
            Some(t) => String::from_str(t),
            None => return,
        };
        self.push_undo();
        let c = self.cursor;
        self.replace_range(c, c, text.as_str(), true);
        self.last_action = Some(LastAction::Yank);
    }

    /// Right after a yank, replace the yanked text with the next older kill.
    pub fn yank_pop(&mut self)
        requires
            old(self).inv(),
        ensures
            final(self).inv(),
            final(self)@ == yank_popped(old(self)@),
    {
        if !matches!(self.last_action, Some(LastAction::Yank)) || self.kill_ring.len() <= 1 {
            return;
        }
        self.push_undo();
        let prev_len = match self.kill_ring.peek() {
            Some(t) => byte_length(t),
            None => 0,
        };
        let c = self.cursor;
        let s = if c >= prev_len {
            c - prev_len
        } else {
            0
        };
        self.kill_ring.rotate();
        let text = match self.kill_ring.peek() {
            Some(t) => String::from_str(t),
            None => String::new(),
        };
        proof {
            lemma_boundary_ends(self.value@);
        }
        self.replace_range(s, c, text.as_str(), true);
        self.last_action = Some(LastAction::Yank);
    }

    /// Move one grapheme left.
    pub fn move_cursor_left(&mut self)
        requires
            old(self).inv(),
        ensures
            final(self).inv(),
            final(self)@ == moved_left(old(self)@),
    {
        self.last_action = None;
        if self.cursor == 0 {
            return;
        }
        let g = last_grapheme_before(self.value.as_str(), self.cursor);
        self.cursor = self.cursor - g;
    }

    /// Move one grapheme right.
    pub fn move_cursor_right(&mut self)
        requires
            old(self).inv(),
        ensures
            final(self).inv(),
            final(self)@ == moved_right(old(self)@),
    {
        self.last_action = None;
        let n = byte_length(self.value.as_str());
        if self.cursor >= n {
            return;
        }
        let g = first_grapheme_at(self.value.as_str(), self.cursor);
        self.cursor = self.cursor + g;
    }

    /// Move back by one word.
    pub fn move_word_backwards(&mut self)
        requires
            old(self).inv(),
        ensures
            final(self).inv(),
            final(self)@ == moved_word_left(old(self)@),
    {
        if self.cursor == 0 {
            return;
        }
        self.last_action = None;
        self.cursor = word_back_target(self.value.as_str(), self.cursor, true);
    }

    /// Move forward by one word.
    pub fn move_word_forwards(&mut self)
        requires
            old(self).inv(),
        ensures
            final(self).inv(),
            final(self)@ == moved_word_right(old(self)@),
    {
        let n = byte_length(self.value.as_str());
        if self.cursor >= n {
            return;
        }
        self.last_action = None;
        self.cursor = word_fwd_target(self.value.as_str(), self.cursor, true);
    }

    /// Move to the start of the value.
    pub fn move_to_start(&mut self)
        requires
            old(self).inv(),
        ensures
            final(self).inv(),
            final(self)@ == moved_to(old(self)@, 0),
    {
        proof {
            lemma_boundary_ends(self.value@);
        }
        self.last_action = None;
        self.cursor = 0;
    }

    /// Move to the end of the value.
    pub fn move_to_end(&mut self)
        requires
            old(self).inv(),
        ensures
            final(self).inv(),
            final(self)@ == moved_to(old(self)@, old(self)@.value.len() as int),
    {
        proof {
            lemma_boundary_ends(self.value@);
        }
        self.last_action = None;
        self.cursor = byte_length(self.value.as_str());
    }

    /// Paste `text` at the cursor, without its line breaks.
    pub fn handle_paste(&mut self, text: &str)
        requires
            old(self).inv(),
        ensures
            final(self).inv(),
            final(self)@ == pasted(old(self)@, text@),
    {
        self.last_action = None;
        self.push_undo();
        let clean = strip_newlines(text);
        let c = self.cursor;
        self.replace_range(c, c, clean.as_str(), true);
    }

    /// Replace the value; the cursor is clamped to its end.
    pub fn set_value(&mut self, value: &str)
        requires
            old(self).inv(),
            ({
                let b = encode_utf8(value@);
                let c = if old(self)@.cursor < b.len() { old(self)@.cursor } else { b.len() as int };
                is_char_boundary(b, c) && yank_ok(InputView { value: b, cursor: c, ..old(self)@ })
            }),
        ensures
            final(self).inv(),
            ({
                let b = encode_utf8(value@);
                final(self)@ == (InputView {
                    value: b,
                    cursor: if old(self)@.cursor < b.len() { old(self)@.cursor } else { b.len() as int },
                    ..old(self)@
                })
            }),
    {
        self.value = String::from_str(value);
        let n = byte_length(value);
        proof {
            broadcast use encode_utf8_valid_utf8;

        }
        if n < self.cursor {
            self.cursor = n;
        }
    }

    /// Whether `data` holds a control character (C0, DEL or C1).
    pub fn has_control_chars(data: &str) -> (r: bool)
        ensures
            r == has_control(data@),
    {
        let v = chars_of(data);
        let mut i: usize = 0;
        while i < v.len()
            invariant
                v@ == data@,
                i <= v@.len(),
                forall|j: int| 0 <= j < i ==> !control_char(#[trigger] v@[j]),
            decreases v@.len() - i,
        {
            let code = v[i] as u32;
            if code < 32 || code == 0x7f || (0x80 <= code && code <= 0x9f) {
                assert(control_char(v@[i as int]));
                return true;
            }
            i = i + 1;
        }
        false
    }

    /// What `data` does, by the default bindings.
    fn classify(&self, data: &str) -> (k: InputKey)
        requires
            self.inv(),
        ensures
            k == key_of(data@),
    {
        let b = data.as_bytes();
        proof {
            assert(self.keys.keys_of(EditorAction::SelectCancel) == default_keys(EditorAction::SelectCancel));
            assert(self.keys.keys_of(EditorAction::Undo) == default_keys(EditorAction::Undo));
            assert(self.keys.keys_of(EditorAction::Submit) == default_keys(EditorAction::Submit));
            assert(self.keys.keys_of(EditorAction::DeleteCharBackward) == default_keys(EditorAction::DeleteCharBackward));
            assert(self.keys.keys_of(EditorAction::DeleteCharForward) == default_keys(EditorAction::DeleteCharForward));
            assert(self.keys.keys_of(EditorAction::DeleteWordBackward) == default_keys(EditorAction::DeleteWordBackward));
            assert(self.keys.keys_of(EditorAction::DeleteWordForward) == default_keys(EditorAction::DeleteWordForward));
            assert(self.keys.keys_of(EditorAction::DeleteToLineStart) == default_keys(EditorAction::DeleteToLineStart));
            assert(self.keys.keys_of(EditorAction::DeleteToLineEnd) == default_keys(EditorAction::DeleteToLineEnd));
            assert(self.keys.keys_of(EditorAction::Yank) == default_keys(EditorAction::Yank));
            assert(self.keys.keys_of(EditorAction::YankPop) == default_keys(EditorAction::YankPop));
            assert(self.keys.keys_of(EditorAction::CursorLeft) == default_keys(EditorAction::CursorLeft));
            assert(self.keys.keys_of(EditorAction::CursorRight) == default_keys(EditorAction::CursorRight));
            assert(self.keys.keys_of(EditorAction::CursorLineStart) == default_keys(EditorAction::CursorLineStart));
            assert(self.keys.keys_of(EditorAction::CursorLineEnd) == default_keys(EditorAction::CursorLineEnd));
            assert(self.keys.keys_of(EditorAction::CursorWordLeft) == default_keys(EditorAction::CursorWordLeft));
            assert(self.keys.keys_of(EditorAction::CursorWordRight) == default_keys(EditorAction::CursorWordRight));
        }
        if self.keys.matches(b, EditorAction::SelectCancel, false) {
            return InputKey::Cancel;
        }
        if self.keys.matches(b, EditorAction::Undo, false) {
            return InputKey::Undo;
        }
        let newline = str_eq(data, "\n");
        proof {
            reveal_strlit("\n");
            assert("\n"@ =~= seq!['\n']);
        }
        if self.keys.matches(b, EditorAction::Submit, false) || newline {
            return InputKey::Submit;
        }
        if self.keys.matches(b, EditorAction::DeleteCharBackward, false) {
            return InputKey::Backspace;
        }
        if self.keys.matches(b, EditorAction::DeleteCharForward, false) {
            return InputKey::Delete;
        }
        if self.keys.matches(b, EditorAction::DeleteWordBackward, false) {
            return InputKey::DeleteWordBackward;
        }
        if self.keys.matches(b, EditorAction::DeleteWordForward, false) {
            return InputKey::DeleteWordForward;
        }
        if self.keys.matches(b, EditorAction::DeleteToLineStart, false) {
            return InputKey::DeleteToStart;
        }
        if self.keys.matches(b, EditorAction::DeleteToLineEnd, false) {
            return InputKey::DeleteToEnd;
        }
        if self.keys.matches(b, EditorAction::Yank, false) {
            return InputKey::Yank;
        }
        if self.keys.matches(b, EditorAction::YankPop, false) {
            return InputKey::YankPop;
        }
        if self.keys.matches(b, EditorAction::CursorLeft, false) {
            return InputKey::Left;
        }
        if self.keys.matches(b, EditorAction::CursorRight, false) {
            return InputKey::Right;
        }
        if self.keys.matches(b, EditorAction::CursorLineStart, false) {
            return InputKey::Home;
        }
        if self.keys.matches(b, EditorAction::CursorLineEnd, false) {
            return InputKey::End;
        }
        if self.keys.matches(b, EditorAction::CursorWordLeft, false) {
            return InputKey::WordLeft;
        }
        if self.keys.matches(b, EditorAction::CursorWordRight, false) {
            return InputKey::WordRight;
        }
        if !Self::has_control_chars(data) {
            return InputKey::Text;
        }
        InputKey::Other
    }

    /// Handle a key outside a paste.
    fn handle_key(&mut self, data: &str) -> (r: (InputResult, InputEvent))
        requires
            old(self).inv(),
        ensures
            final(self).inv(),
            (final(self)@, r.0, r.1@) == key_step(old(self)@, data@),
    {
        let k = self.classify(data);
        match k {
            InputKey::Cancel => {
                return (InputResult::Consumed, InputEvent::Escape);
            },
            InputKey::Undo => self.undo(),
            InputKey::Submit => {
                proof {
                    broadcast use encode_utf8_decode_utf8;

                }
                return (InputResult::Consumed, InputEvent::Submit(self.value.clone()));
            },
            InputKey::Backspace => self.handle_backspace(),
            InputKey::Delete => self.handle_forward_delete(),
            InputKey::DeleteWordBackward => self.delete_word_backwards(),
            InputKey::DeleteWordForward => self.delete_word_forward(),
            InputKey::DeleteToStart => self.delete_to_line_start(),
            InputKey::DeleteToEnd => self.delete_to_line_end(),
            InputKey::Yank => self.yank(),
            InputKey::YankPop => self.yank_pop(),
            InputKey::Left => self.move_cursor_left(),
            InputKey::Right => self.move_cursor_right(),
            InputKey::Home => self.move_to_start(),
            InputKey::End => self.move_to_end(),
            InputKey::WordLeft => self.move_word_backwards(),
            InputKey::WordRight => self.move_word_forwards(),
            InputKey::Text => self.insert_text(data),
            InputKey::Other => {
                return (InputResult::Ignored, InputEvent::Nothing);
            },
        }
        (InputResult::Consumed, InputEvent::Nothing)
    }

    /// Buffer `data` for a bracketed paste. `None` when it neither starts a
    /// paste nor arrives during one; else, after pasting a completed paste,
    /// the input that followed its end marker.
    fn paste_step(&mut self, data: &str) -> (r: Option<String>)
        requires
            old(self).inv(),
        ensures
            final(self).inv(),
            match paste_phase(old(self)@, data@) {
                None => r is None && final(self)@ == old(self)@,
                Some((v2, rest)) => r matches Some(t) && t@ == rest && final(self)@ == v2,
            },
    {
        let dv = chars_of(data);
        let start = chars_of("\x1b[200~");
        let end = chars_of("\x1b[201~");
        proof {
            reveal_strlit("\x1b[200~");
            reveal_strlit("\x1b[201~");
            assert(start@ =~= paste_start());
            assert(end@ =~= paste_end());
        }
        let starts = contains_chars(&dv, &start);
        if starts {
            self.is_in_paste = true;
            self.paste_buffer = remove_all(&dv, &start);
        }
        if !self.is_in_paste {
            return None;
        }
        if !starts {
            self.paste_buffer.append(data);
        }
        let bv = chars_of(self.paste_buffer.as_str());
        let bl = bv.len();
        match find_chars(&bv, &end) {
            Some(e) => {
                proof {
                    lemma_seq_find_some(bv@, end@, 0);
                    assert(end@.len() == 6);
                    assert(e + 6 <= bv@.len());
                }
                let content = string_from_range(bv.as_slice(), 0, e);
                let rest = string_from_range(bv.as_slice(), e + 6, bl);
                proof {
                    assert(content@ =~= bv@.take(e as int));
                    assert(rest@ =~= bv@.skip(e + 6));
                }
                self.handle_paste(content.as_str());
                self.is_in_paste = false;
                self.paste_buffer = String::new();
                Some(rest)
            },
            None => Some(String::new()),
        }
    }

    /// Handle raw terminal input. A bracketed paste is buffered until its
    /// end marker and then pasted; other input goes by the default key
    /// bindings.
    #[verifier::rlimit(40)]
    pub fn handle_input(&mut self, data: &str) -> (r: (InputResult, InputEvent))
        requires
            old(self).inv(),
        ensures
            final(self).inv(),
            (final(self)@, r.0, r.1@) == handled(old(self)@, data@),
    {
        let mut input = String::from_str(data);
        let mut pasted_once = false;
        loop
            invariant
                self.inv(),
                ({
                    let h0 = handled(old(self)@, data@);
                    let h = handled(self@, input@);
                    &&& h0.0 == h.0
                    &&& h0.2 == h.2
                    &&& pasted_once ==> h0.1 == InputResult::Consumed
                    &&& !pasted_once ==> h0.1 == h.1
                }),
            decreases self@.paste.len() + input@.len(),
        {
            let ghost v = self@;
            let ghost d = input@;
            proof {
                lemma_paste_phase_shrinks(v, d);
            }
            match self.paste_step(input.as_str()) {
                None => {
                    proof {
                        lemma_handled_key(v, d);
                    }
                    let (r, ev) = self.handle_key(input.as_str());
                    if pasted_once {
                        return (InputResult::Consumed, ev);
                    }
                    return (r, ev);
                },
                Some(rest) => {
                    if rest.unicode_len() == 0 {
                        proof {
                            assert(rest@ =~= Seq::<char>::empty());
                            lemma_handled_paste(v, d, self@);
                        }
                        return (InputResult::Consumed, InputEvent::Nothing);
                    }
                    proof {
                        lemma_handled_rest(v, d, self@, rest@);
                    }
                    input = rest;
                    pasted_once = true;
                },
            }
        }
    }

    pub fn set_focused(&mut self, focused: bool)
        requires
            old(self).inv(),
        ensures
            final(self).inv(),
            final(self)@ == (InputView { focused, ..old(self)@ }),
    {
        self.focused = focused;
    }

    pub fn is_focused(&self) -> (r: bool)
        ensures
            r == self@.focused,
    {
        self.focused
    }
}

/// Whether no grapheme of `text` is white space.
fn is_word_chunk(text: &str) -> (r: bool)
    ensures
        r == forall|i: int| 0 <= i < graphemes(text@).len() ==> !ws_class(#[trigger] graphemes(text@)[i], true),
{
    let gs = grapheme_strings(text);
    let ghost v = string_views(gs@);
    let mut i: usize = 0;
    while i < gs.len()
        invariant
            v == string_views(gs@),
            v == graphemes(text@),
            i <= gs@.len(),
            forall|j: int| 0 <= j < i ==> !ws_class(#[trigger] v[j], true),
        decreases gs@.len() - i,
    {
        if is_ws_class(gs[i].as_str(), true) {
            assert(ws_class(v[i as int], true));
            return false;
        }
        i = i + 1;
    }
    true
}

/// `text` without carriage returns and line feeds.
fn strip_newlines(text: &str) -> (r: String)
    ensures
        r@ == without_newlines(text@),
{
    let v = chars_of(text);
    let mut r = String::new();
    let mut i: usize = 0;
    while i < v.len()
        invariant
            v@ == text@,
            i <= v@.len(),
            r@ == v@.take(i as int).filter(|c: char| c != '\r' && c != '\n'),
        decreases v@.len() - i,
    {
        let c = v[i];
        proof {
            reveal(Seq::filter);
            assert(v@.take(i + 1).drop_last() =~= v@.take(i as int));
            assert(v@.take(i + 1).last() == c);
        }
        if c != '\r' && c != '\n' {
            r.push(c);
        }
        i = i + 1;
    }
    assert(v@.take(v@.len() as int) =~= v@);
    r
}

/// Byte length of the first `k` graphemes of `s`.
pub open spec fn grapheme_prefix(s: Seq<char>, k: int) -> int {
    byte_len(concat_all(graphemes(s).take(k)))
}

/// `r` is the start of the grapheme of `s` that holds byte `target`: the
/// largest grapheme boundary at or before it (the byte length of `s` when
/// `target` is at or past the end).
pub open spec fn grapheme_floor(s: Seq<char>, target: int, r: int) -> bool {
    &&& target >= encode_utf8(s).len() ==> r == encode_utf8(s).len()
    &&& target < encode_utf8(s).len() ==> exists|k: int|
        0 <= k < graphemes(s).len() && r == grapheme_prefix(s, k) && r <= target
            < #[trigger] grapheme_prefix(s, k + 1)
}

/// The start of the grapheme of `s` that holds byte `target`.
pub fn find_grapheme_boundary(s: &str, target: usize) -> (r: usize)
    ensures
        grapheme_floor(s@, target as int, r as int),
{
    let n = byte_length(s);
    if target >= n {
        return n;
    }
    let gs = grapheme_strings(s);
    let ghost v = string_views(gs@);
    let mut pos: usize = 0;
    let mut i: usize = 0;
    assert(v.take(0) =~= Seq::<Seq<char>>::empty());
    while i < gs.len()
        invariant
            v == string_views(gs@),
            v == graphemes(s@),
            concat_all(v) == s@,
            n == encode_utf8(s@).len(),
            target < n,
            i <= gs@.len(),
            pos == grapheme_prefix(s@, i as int),
            pos <= target,
        decreases gs@.len() - i,
    {
        let g = byte_length(gs[i].as_str());
        proof {
            assert(v.take(i + 1).drop_last() =~= v.take(i as int));
            assert(v.take(i + 1).last() == v[i as int]);
            lemma_encode_concat(concat_all(v.take(i as int)), v[i as int]);
            lemma_grapheme_prefix_boundary(v, i + 1, Seq::empty());
        }
        if g > target - pos {
            proof {
                assert(grapheme_prefix(s@, i + 1) == pos + g);
                assert(grapheme_prefix(s@, i + 1) > target);
            }
            return pos;
        }
        pos = pos + g;
        i = i + 1;
    }
    proof {
        assert(v.take(gs@.len() as int) =~= v);
    }
    pos
}

/// The grapheme boundary `scroll_width` bytes before the end of `s`, or
/// the start when `s` is no longer than that.
pub fn find_grapheme_boundary_from_end(s: &str, scroll_width: usize) -> (r: usize)
    ensures
        scroll_width >= encode_utf8(s@).len() ==> r == 0,
        scroll_width < encode_utf8(s@).len() ==> grapheme_floor(
            s@,
            encode_utf8(s@).len() - scroll_width,
            r as int,
        ),
{
    let n = byte_length(s);
    if scroll_width >= n {
        return 0;
    }
    find_grapheme_boundary(s, n - scroll_width)
}

impl Default for Input {
    fn default() -> (r: Self)
        ensures
            r.inv(),
            r@.value.len() == 0,
            r@.cursor == 0,
            r@.ring.len() == 0,
            r@.last is None,
            r@.undo.len() == 0,
            !r@.in_paste,
            r@.paste.len() == 0,
            !r@.focused,
    {
        Input::new()
    }
}

} // verus!
