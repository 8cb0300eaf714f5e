//! Multi-line editor: state, editing operations, cursor motion, history,
//! and the editor component that ties them to keys, with a kill ring, undo,
//! bracketed paste (large pastes folded into markers), character jumps and
//! autocomplete.

pub mod editing;
pub mod history;
pub mod kitty;
pub mod layout;
pub mod motion;
pub mod paste;
pub mod state;

pub use super::autocomplete::CompletionResult;

use vstd::prelude::*;
use vstd::string::*;
use vstd::utf8::*;

use self::editing::{
    add_new_line, after_add_new_line, after_delete_to_end_of_line, after_delete_to_start_of_line,
    after_delete_word_backwards, after_delete_word_forwards, after_delete_yanked_text,
    after_handle_backspace, after_handle_forward_delete, after_insert_character,
    after_insert_text_at_cursor, after_set_text_internal, delete_to_end_of_line,
    delete_to_start_of_line, delete_word_backwards, delete_word_forwards, delete_yanked_text,
    handle_backspace, handle_forward_delete, insert_character, insert_text_at_cursor,
    set_text_internal, text_pieces, yank_start,
};
use self::history::{History, HistoryView, added, nav_target};
use self::kitty::{decode_kitty_printable, is_new_line_key, kitty_printable, new_line_key};
use self::layout::{cursor_visual_line_from, find_current_visual_line};
use self::paste::{
    clean_paste, clean_paste_text, count_newlines, expand_pastes, expansion, expansion_ends,
    make_paste_marker, newline_count, paste_marker, paste_pattern,
};
use self::motion::{
    after_jump_to_char, after_move_to_line_end, after_move_to_line_start,
    after_move_word_backwards, after_move_word_forwards, after_set_cursor_col, cursor_moved,
    horizontal_ok, is_on_first_visual_line, is_on_last_visual_line, jump_to_char, move_cursor,
    move_to_line_end, move_to_line_start, move_word_backwards, move_word_forwards,
    set_cursor_col, visual_map_ok,
};
use self::state::{col_at_boundary, cursor_ok, join_lines, lb, line_bytes, structural, EditorState, VisualLine};
use crate::graphemes::{grapheme_strings, graphemes};
use crate::strs::{alphanumeric, byte_len, concat_all, is_ws, remove_from, seq_find, splice, string_views, trim, trim_start, trim_string};
use super::input::{paste_end, paste_start};
use super::filterable_select::selected_of;
use super::select_list::{list_key_done, SelectEvent, SelectItem, SelectList, SelectListTheme};
use crate::component::InputResult;
use crate::keybindings::{binding_matches, bound, default_keys, EditorAction, EditorKeybindingsManager};
use crate::keys::match_key::{is_key, key_is};
use crate::kill_ring::{pushed, rotated, KillRing};
use crate::style::Style;
use crate::symbols::SymbolTheme;

verus! {

/// The previous edit, for kill accumulation and yank-pop.
#[derive(Debug, Clone, Copy, PartialEq, Eq, Structural)]
pub enum EditAction {
    Kill,
    Yank,
}

/// Whether the autocomplete list came from typing or from Tab.
#[derive(Debug, Clone, Copy, PartialEq, Eq, Structural)]
pub enum AutocompleteState {
    Regular,
    Force,
}

/// Direction of a pending character jump.
#[derive(Debug, Clone, Copy, PartialEq, Eq, Structural)]
pub enum JumpMode {
    Forward,
    Backward,
}

/// Theme for the editor.
pub struct EditorTheme {
    pub border_color: Style,
    pub select_list: SelectListTheme,
    pub symbols: SymbolTheme,
    pub editor_padding_x: Option<usize>,
    pub hint_style: Option<Style>,
}

/// Custom content for the top border (such as a status line).
pub struct EditorTopBorder {
    /// The content, already styled.
    pub content: String,
    /// Its visible width.
    pub width: usize,
}

/// Autocomplete suggestions and the text before the cursor they complete.
pub struct AutocompleteSuggestions {
    pub items: Vec<SelectItem>,
    pub prefix: String,
}

/// A source of completions for the editor, implemented by its users.
pub trait AutocompleteProvider {
    /// Suggestions for the text and cursor.
    fn get_suggestions(
        &mut self,
        lines: &[String],
        cursor_line: usize,
        cursor_col: usize,
    ) -> Option<AutocompleteSuggestions>;

    /// The text and cursor after choosing `item` to complete `prefix`; the
    /// cursor must be on a line, on a character boundary.
    fn apply_completion(
        &self,
        lines: &[String],
        cursor_line: usize,
        cursor_col: usize,
        item: &SelectItem,
        prefix: &str,
    ) -> (r: CompletionResult)
        ensures
            r.lines@.len() > 0,
            r.cursor_line < r.lines@.len(),
            col_at_boundary(r.lines@[r.cursor_line as int], r.cursor_col as int),
    ;

    /// Ghost text to show after the cursor.
    fn get_inline_hint(&self, lines: &[String], cursor_line: usize, cursor_col: usize) -> Option<String> {
        None
    }

    /// Whether Tab should complete file paths here.
    fn should_trigger_file_completion(&self, lines: &[String], cursor_line: usize, cursor_col: usize) -> bool {
        true
    }

    /// Suggestions for Tab (file paths).
    fn get_force_file_suggestions(
        &mut self,
        lines: &[String],
        cursor_line: usize,
        cursor_col: usize,
    ) -> Option<AutocompleteSuggestions> {
        self.get_suggestions(lines, cursor_line, cursor_col)
    }
}

/// What the editor reports to its owner: the text changed, Alt+Enter was
/// pressed (with the text, when that is reported rather than inserting a
/// line), the autocomplete list was updated or dismissed.
pub struct EditorEvents {
    pub changed: bool,
    pub alt_enter: Option<String>,
    pub autocomplete_updated: bool,
    pub autocomplete_cancelled: bool,
}

impl EditorEvents {
    pub fn none() -> (r: Self)
        ensures
            !r.changed,
            r.alt_enter is None,
            !r.autocomplete_updated,
            !r.autocomplete_cancelled,
    {
        EditorEvents { changed: false, alt_enter: None, autocomplete_updated: false, autocomplete_cancelled: false }
    }
}

/// Abstract editor.
pub struct EditorView {
    pub state: EditorState,
    pub history: HistoryView,
    pub ring: Seq<Seq<char>>,
    pub last: Option<EditAction>,
    pub jump: Option<JumpMode>,
    pub preferred_col: Option<usize>,
    pub undo: Seq<EditorState>,
    pub autocomplete: Option<AutocompleteState>,
    pub prefix: Seq<char>,
    pub list: Option<SelectList>,
    pub pastes: Seq<(u64, Seq<char>)>,
    pub paste_counter: u64,
    pub in_paste: bool,
    pub paste: Seq<char>,
    pub pending_input: Seq<char>,
    pub has_provider: bool,
    pub focused: bool,
    pub use_terminal_cursor: bool,
    pub max_height: Option<usize>,
    pub padding_x_override: Option<usize>,
    pub scroll_offset: int,
    pub max_visible: int,
    pub disable_submit: bool,
    pub report_alt_enter: bool,
}

/// Two states with the same text and cursor.
pub open spec fn same_state(a: EditorState, b: EditorState) -> bool {
    &&& a.lines@.map_values(|s: String| s@) == b.lines@.map_values(|s: String| s@)
    &&& a.cursor_line == b.cursor_line
    &&& a.cursor_col == b.cursor_col
}

/// A copy of `s`.
pub fn clone_state(s: &EditorState) -> (r: EditorState)
    ensures
        same_state(r, *s),
{
    let n = s.lines.len();
    let mut lines: Vec<String> = Vec::new();
    let mut i: usize = 0;
    while i < n
        invariant
            n == s.lines@.len(),
            i <= n,
            lines@.len() == i,
            forall|j: int| 0 <= j < i ==> (#[trigger] lines@[j])@ == s.lines@[j]@,
        decreases n - i,
    {
        lines.push(s.lines[i].clone());
        i = i + 1;
    }
    proof {
        assert(lines@.map_values(|t: String| t@) =~= s.lines@.map_values(|t: String| t@));
    }
    EditorState { lines, cursor_line: s.cursor_line, cursor_col: s.cursor_col }
}

/// States with the same text and cursor agree on what the cursor sits on.
pub proof fn lemma_same_state_ok(a: EditorState, b: EditorState)
    requires
        same_state(a, b),
    ensures
        structural(a) == structural(b),
        cursor_ok(a) == cursor_ok(b),
{
    assert(a.lines@.map_values(|s: String| s@).len() == a.lines@.len());
    assert(b.lines@.map_values(|s: String| s@).len() == b.lines@.len());
    if a.lines@.len() > 0 && a.cursor_line < a.lines@.len() {
        assert(a.lines@.map_values(|s: String| s@)[a.cursor_line as int] == a.lines@[a.cursor_line as int]@);
        assert(b.lines@.map_values(|s: String| s@)[a.cursor_line as int] == b.lines@[a.cursor_line as int]@);
    }
}

/// `b` is `a` with at most the autocomplete list, state and prefix changed.
pub open spec fn only_autocomplete_changed(a: EditorView, b: EditorView) -> bool {
    b == (EditorView { autocomplete: b.autocomplete, list: b.list, prefix: b.prefix, ..a })
}

/// `b` is `a` with at most the text, the cursor and the autocomplete
/// list, state and prefix changed (a completion was applied).
pub open spec fn completion_applied(a: EditorView, b: EditorView) -> bool {
    &&& b == (EditorView {
        state: b.state,
        preferred_col: b.preferred_col,
        autocomplete: b.autocomplete,
        list: b.list,
        prefix: b.prefix,
        ..a
    })
    &&& cursor_ok(b.state)
}

/// A pasted path (starting with `/`, `~` or `.`) right after a word
/// character gets a space in front.
pub open spec fn spaced_paste(s: EditorState, t: Seq<char>) -> Seq<char> {
    let before = decode_utf8(lb(s.lines@[s.cursor_line as int]).take(s.cursor_col as int));
    if t.len() > 0 && (t[0] == '/' || t[0] == '~' || t[0] == '.') && s.cursor_col > 0 && before.len() > 0
        && (alphanumeric(before.last()) || before.last() == '_') {
        seq![' '] + t
    } else {
        t
    }
}

/// The text a paste of `pasted` inserts.
pub open spec fn paste_text(s: EditorState, pasted: Seq<char>) -> Seq<char> {
    spaced_paste(s, clean_paste(pasted))
}

/// `b` is `a` after a paste: at most the text, history browsing, kill
/// sequence, undo, pastes and autocomplete changed.
pub open spec fn paste_frame(a: EditorView, b: EditorView) -> bool {
    b == (EditorView {
        state: b.state,
        history: HistoryView { index: None, ..a.history },
        last: None,
        undo: b.undo,
        pastes: b.pastes,
        paste_counter: b.paste_counter,
        autocomplete: b.autocomplete,
        list: b.list,
        prefix: b.prefix,
        ..a
    })
}

/// `b` is `a` with `text` inserted at `a`'s cursor on its line.
pub open spec fn inserted_on_line(a: EditorState, b: EditorState, text: Seq<char>) -> bool {
    let cl = a.cursor_line as int;
    let line = lb(a.lines@[cl]);
    &&& line_bytes(b.lines@) == line_bytes(a.lines@).update(
        cl,
        splice(line, a.cursor_col as int, a.cursor_col as int, encode_utf8(text)),
    )
    &&& b.cursor_line == a.cursor_line
    &&& b.cursor_col == a.cursor_col + encode_utf8(text).len()
}

/// The editor's text: its lines joined with line feeds.
pub open spec fn text_of(s: EditorState) -> Seq<char> {
    join_lines(s.lines@.map_values(|l: String| l@))
}

/// The editor after browsing the history in `direction`.
pub open spec fn navigated(o: EditorView, f: EditorView, eo: EditorEvents, ef: EditorEvents, direction: i32) -> bool {
    &&& cursor_ok(o.state) ==> cursor_ok(f.state)
    &&& ({
        let t = nav_target(o.history.index, direction);
        let es = o.history.entries;
        if es.len() == 0 || t < -1 || t >= es.len() {
            f == (EditorView { last: None, ..o }) && ef
                == eo
        } else {
            &&& after_set_text_internal(
                o.state,
                f.state,
                if t == -1 { Seq::empty() } else { es[t] },
            )
            &&& f == (EditorView {
                state: f.state,
                history: HistoryView { index: if t == -1 { None } else { Some(t) }, ..o.history },
                undo: Seq::empty(),
                last: None,
                ..o
            })
            &&& ef == (EditorEvents { changed: true, ..eo })
        }
    })
}

/// The editor after an undo.
pub open spec fn undo_applied(o: EditorView, f: EditorView, eo: EditorEvents, ef: EditorEvents) -> bool {
    &&& o.undo.len() == 0 ==> f == o && ef == eo
    &&& o.undo.len() > 0 ==> ({
        let v = EditorView {
            state: f.state,
            history: HistoryView { index: None, ..o.history },
            undo: o.undo.drop_last(),
            last: None,
            preferred_col: None,
            ..o
        };
        &&& same_state(f.state, o.undo.last())
        &&& cursor_ok(f.state)
        &&& only_autocomplete_changed(v, f)
        &&& !o.has_provider ==> f == v
        &&& ef.changed
        &&& ef.alt_enter == eo.alt_enter
    })
}

/// The editor after a yank.
pub open spec fn yank_done(o: EditorView, f: EditorView, eo: EditorEvents, ef: EditorEvents) -> bool {
    &&& o.ring.len() == 0 ==> f == o && ef == eo
    &&& o.ring.len() > 0 ==> after_insert_text_at_cursor(
        o.state,
        f.state,
        o.ring.last(),
    ) && f == (EditorView {
        state: f.state,
        last: Some(EditAction::Yank),
        ..o
    }) && ef == (EditorEvents { changed: true, ..eo })
}

/// The editor after a yank-pop.
pub open spec fn yank_pop_done(o: EditorView, f: EditorView, eo: EditorEvents, ef: EditorEvents) -> bool {
    &&& o.last != Some(EditAction::Yank) || o.ring.len() <= 1 ==> f == o
        && ef == eo
    &&& o.last == Some(EditAction::Yank) && o.ring.len() > 1 ==> ({
        &&& f.undo.len() == o.undo.len() + 1
        &&& same_state(f.undo.last(), o.state)
        &&& f.history == HistoryView { index: None, ..o.history }
        &&& yank_start(o.state.lines@, o.state.cursor_line as int,
            o.state.cursor_col as int, o.ring.last()) is None ==> f == (EditorView {
            history: f.history,
            undo: f.undo,
            ..o
        }) && ef == eo
        &&& yank_start(o.state.lines@, o.state.cursor_line as int,
            o.state.cursor_col as int, o.ring.last()) is Some ==> (exists|mid: EditorState|
            after_delete_yanked_text(o.state, mid, o.ring.last(), true)
            && #[trigger] after_insert_text_at_cursor(mid, f.state, rotated(o.ring).last()))
            && f == (EditorView {
            state: f.state,
            history: f.history,
            undo: f.undo,
            ring: rotated(o.ring),
            last: Some(EditAction::Yank),
            ..o
        }) && ef == (EditorEvents { changed: true, ..eo })
    })
}

/// The editor after typing `ch`.
pub open spec fn char_typed(o: EditorView, f: EditorView, eo: EditorEvents, ef: EditorEvents, ch: Seq<char>) -> bool {
    &&& after_insert_character(o.state, f.state, ch)
    &&& f.undo.len() == o.undo.len() + 1
    &&& same_state(f.undo.last(), o.state)
    &&& ({
        let v = EditorView {
            state: f.state,
            history: HistoryView { index: None, ..o.history },
            last: None,
            undo: o.undo.push(f.undo.last()),
            ..o
        };
        &&& only_autocomplete_changed(v, f)
        &&& !o.has_provider ==> f == v
    })
    &&& ef.changed
    &&& ef.alt_enter == eo.alt_enter
    &&& !o.has_provider ==> ef == (EditorEvents { changed: true, ..eo })
}

/// The editor after inserting `text`.
pub open spec fn text_inserted(o: EditorView, f: EditorView, eo: EditorEvents, ef: EditorEvents, text: Seq<char>) -> bool {
    &&& after_insert_text_at_cursor(o.state, f.state, text)
    &&& f.undo.len() == o.undo.len() + 1
    &&& same_state(f.undo.last(), o.state)
    &&& f == (EditorView {
        state: f.state,
        history: HistoryView { index: None, ..o.history },
        last: None,
        undo: o.undo.push(f.undo.last()),
        ..o
    })
    &&& ef == (EditorEvents { changed: true, ..eo })
}

/// The editor after a submit that gave `r`.
pub open spec fn submitted(o: EditorView, f: EditorView, eo: EditorEvents, ef: EditorEvents, r: Option<String>) -> bool {
    &&& match r {
        Some(t) => trim(text_of(o.state)).len() > 0 && t@ == expansion(
            text_of(o.state),
            o.pastes,
        ),
        None => trim(text_of(o.state)).len() == 0,
    }
    &&& f.state.lines@.len() == 1
    &&& f.state.lines@[0]@.len() == 0
    &&& f.state.cursor_line == 0
    &&& f.state.cursor_col == 0
    &&& f == (EditorView {
        state: f.state,
        last: None,
        pastes: Seq::empty(),
        paste_counter: 0,
        history: HistoryView { index: None, ..o.history },
        scroll_offset: 0,
        undo: Seq::empty(),
        ..o
    })
    &&& ef == (EditorEvents { changed: true, ..eo })
}

/// The editor after pasting `pasted`.
pub open spec fn paste_done(o: EditorView, f: EditorView, eo: EditorEvents, ef: EditorEvents, pasted: Seq<char>) -> bool {
    &&& paste_frame(o, f)
    &&& !o.has_provider ==> f.autocomplete == o.autocomplete
        && f.list == o.list && f.prefix == o.prefix
    &&& ef.alt_enter == eo.alt_enter
    &&& ({
        let t = paste_text(o.state, pasted);
        let lines = newline_count(t) + 1;
        let bytes = encode_utf8(t).len();
        if lines > 10 || bytes > 1000 {
            &&& f.paste_counter == o.paste_counter + 1
            &&& f.pastes == o.pastes.push((f.paste_counter, t))
            &&& after_insert_text_at_cursor(
                o.state,
                f.state,
                paste_marker(f.paste_counter, lines, bytes as nat),
            )
            &&& f.undo.len() == o.undo.len() + 1
            &&& ef.changed
        } else if lines == 1 {
            &&& f.paste_counter == o.paste_counter
            &&& f.pastes == o.pastes
            &&& inserted_on_line(o.state, f.state, t)
            &&& f.undo.len() == o.undo.len() + 1 + graphemes(t).len()
            &&& graphemes(t).len() > 0 ==> ef.changed
        } else {
            &&& f.paste_counter == o.paste_counter
            &&& f.pastes == o.pastes
            &&& after_insert_text_at_cursor(o.state, f.state, t)
            &&& f.undo.len() == o.undo.len() + 1
            &&& ef.changed
        }
    })
}

/// What a key does to the editor (outside a jump and a paste), in the
/// order the editor checks.
#[derive(Debug, Clone, Copy, PartialEq, Eq, Structural)]
pub enum EditorKey {
    CtrlC,
    Undo,
    ListCancel,
    ListMove,
    ListTab,
    ListEnter,
    Tab,
    KillToEnd,
    KillToStart,
    KillWordBackward,
    KillWordForward,
    Yank,
    YankPop,
    LineStart,
    LineEnd,
    AltEnter,
    NewLine,
    Enter,
    Backspace,
    Delete,
    WordLeft,
    WordRight,
    Up,
    Down,
    Right,
    Left,
    ShiftSpace,
    JumpForward,
    JumpBackward,
    Kitty,
    Char,
    Other,
}

/// Enter, Return or a line feed.
pub open spec fn enter_like(d: Seq<char>) -> bool {
    is_key(encode_utf8(d), "enter"@, false) || is_key(encode_utf8(d), "return"@, false) || d == seq!['\n']
}

/// The key `d` is, given whether the autocomplete list is showing and
/// whether autocomplete is active at all.
pub open spec fn editor_key(d: Seq<char>, showing: bool, active: bool) -> EditorKey {
    let b = encode_utf8(d);
    if is_key(b, "ctrl+c"@, false) {
        EditorKey::CtrlC
    } else if bound(EditorAction::Undo, d) {
        EditorKey::Undo
    } else if showing && (is_key(b, "escape"@, false) || is_key(b, "esc"@, false)) {
        EditorKey::ListCancel
    } else if showing && (bound(EditorAction::SelectUp, d) || bound(EditorAction::SelectDown, d)) {
        EditorKey::ListMove
    } else if showing && bound(EditorAction::Tab, d) {
        EditorKey::ListTab
    } else if showing && enter_like(d) {
        EditorKey::ListEnter
    } else if bound(EditorAction::Tab, d) && !active {
        EditorKey::Tab
    } else if bound(EditorAction::DeleteToLineEnd, d) {
        EditorKey::KillToEnd
    } else if bound(EditorAction::DeleteToLineStart, d) {
        EditorKey::KillToStart
    } else if bound(EditorAction::DeleteWordBackward, d) {
        EditorKey::KillWordBackward
    } else if is_key(b, "alt+d"@, false) || is_key(b, "alt+delete"@, false) {
        EditorKey::KillWordForward
    } else if bound(EditorAction::Yank, d) {
        EditorKey::Yank
    } else if bound(EditorAction::YankPop, d) {
        EditorKey::YankPop
    } else if bound(EditorAction::CursorLineStart, d) {
        EditorKey::LineStart
    } else if bound(EditorAction::CursorLineEnd, d) {
        EditorKey::LineEnd
    } else if is_key(b, "alt+enter"@, false) {
        EditorKey::AltEnter
    } else if new_line_key(d) {
        EditorKey::NewLine
    } else if enter_like(d) {
        EditorKey::Enter
    } else if bound(EditorAction::DeleteCharBackward, d) || is_key(b, "shift+backspace"@, false) {
        EditorKey::Backspace
    } else if bound(EditorAction::DeleteCharForward, d) || is_key(b, "shift+delete"@, false) {
        EditorKey::Delete
    } else if bound(EditorAction::CursorWordLeft, d) {
        EditorKey::WordLeft
    } else if bound(EditorAction::CursorWordRight, d) {
        EditorKey::WordRight
    } else if bound(EditorAction::CursorUp, d) {
        EditorKey::Up
    } else if bound(EditorAction::CursorDown, d) {
        EditorKey::Down
    } else if bound(EditorAction::CursorRight, d) {
        EditorKey::Right
    } else if bound(EditorAction::CursorLeft, d) {
        EditorKey::Left
    } else if is_key(b, "shift+space"@, false) {
        EditorKey::ShiftSpace
    } else if bound(EditorAction::JumpForward, d) {
        EditorKey::JumpForward
    } else if bound(EditorAction::JumpBackward, d) {
        EditorKey::JumpBackward
    } else if kitty_printable(d) is Some {
        EditorKey::Kitty
    } else if b.len() > 0 && b[0] >= 32 {
        EditorKey::Char
    } else {
        EditorKey::Other
    }
}

/// A jump from the cursor can search its line: the byte after the cursor
/// (forward) or the cursor itself (backward) is a character boundary.
pub open spec fn jump_ok(s: EditorState, forward: bool) -> bool {
    let b = lb(s.lines@[s.cursor_line as int]);
    &&& forward && s.cursor_col + 1 <= b.len() ==> is_char_boundary(b, s.cursor_col + 1)
    &&& !forward ==> is_char_boundary(b, if s.cursor_col < b.len() {
        s.cursor_col as int
    } else {
        b.len() as int
    })
}

/// A kill of `del` (in front of the previous kill when `backward`).
pub open spec fn kill_done(o: EditorView, f: EditorView, del: Seq<char>, backward: bool) -> bool {
    &&& f.undo.len() == o.undo.len() + 1
    &&& same_state(f.undo.last(), o.state)
    &&& f == (EditorView {
        state: f.state,
        history: HistoryView { index: None, ..o.history },
        undo: o.undo.push(f.undo.last()),
        ring: if del.len() > 0 { pushed(o.ring, del, backward, o.last == Some(EditAction::Kill)) } else { o.ring },
        last: if del.len() > 0 { Some(EditAction::Kill) } else { o.last },
        ..o
    })
}

/// A line break at the cursor.
pub open spec fn line_broken(o: EditorView, f: EditorView) -> bool {
    &&& after_add_new_line(o.state, f.state)
    &&& f.undo.len() == o.undo.len() + 1
    &&& same_state(f.undo.last(), o.state)
    &&& f == (EditorView {
        state: f.state,
        history: HistoryView { index: None, ..o.history },
        undo: o.undo.push(f.undo.last()),
        last: None,
        preferred_col: None,
        ..o
    })
}

/// A cursor move (the text and everything else the same), ending the
/// kill sequence when `reset`.
pub open spec fn moved(o: EditorView, f: EditorView, reset: bool) -> bool {
    &&& f.state.lines@ == o.state.lines@
    &&& f == (EditorView {
        state: f.state,
        preferred_col: f.preferred_col,
        last: if reset { None } else { o.last },
        ..o
    })
}

/// The text before the cursor on its line.
pub open spec fn before_cursor(s: EditorState) -> Seq<char> {
    decode_utf8(lb(s.lines@[s.cursor_line as int]).take(s.cursor_col as int))
}

/// Every text expands: no paste marker leads to an endless expansion.
pub open spec fn pastes_expand(pastes: Seq<(u64, Seq<char>)>) -> bool {
    forall|t: Seq<char>| #[trigger] expansion_ends(t, pastes)
}

/// Enter on a slash command in the list: the selected command is applied
/// (`mid`) when the text before the cursor is still the prefix the list was
/// made for, else the list is dismissed; then the text is submitted unless
/// submitting is disabled.
pub open spec fn slash_enter(
    o: EditorView,
    mid: EditorView,
    f: EditorView,
    eo: EditorEvents,
    em: EditorEvents,
    ef: EditorEvents,
    r: InputResult,
) -> bool {
    &&& completion_applied(o, mid)
    &&& em.alt_enter == eo.alt_enter
    &&& before_cursor(o.state) != o.prefix ==> mid == (EditorView {
        autocomplete: None,
        list: None,
        prefix: Seq::empty(),
        ..o
    }) && em == eo
    &&& if o.disable_submit {
        r == InputResult::Consumed && f == mid && ef == em
    } else {
        exists|sub: Option<String>|
            #[trigger] submitted(mid, f, em, ef, sub) && match sub {
                Some(t) => r == InputResult::Submit(t),
                None => r == InputResult::Consumed,
            }
    }
}

/// The answer `s` of the provider shown with the list in state `mode`: a
/// non-empty answer replaces the list (its items, all shown, the first
/// selected) and the prefix; no answer, or an empty one, dismisses the
/// list. Either way the update is reported.
pub open spec fn suggestions_shown(
    o: EditorView,
    f: EditorView,
    eo: EditorEvents,
    ef: EditorEvents,
    s: Option<AutocompleteSuggestions>,
    mode: AutocompleteState,
) -> bool {
    &&& ef == (EditorEvents { autocomplete_updated: true, ..eo })
    &&& if s is Some && s.unwrap().items@.len() > 0 {
        let sg = s.unwrap();
        &&& f == (EditorView { autocomplete: Some(mode), list: f.list, prefix: sg.prefix@, ..o })
        &&& f.list matches Some(l) && l.items_view() == sg.items@ && l.filtered() == Seq::new(
            sg.items@.len(),
            |i: int| i as usize,
        ) && l.selected() == 0 && l.visible() == o.max_visible
    } else {
        f == (EditorView { autocomplete: None, list: None, prefix: Seq::empty(), ..o })
    }
}

/// The answer `s` of the provider to a file completion: with `explicit_tab`
/// and a single suggestion it is applied at once (the text and cursor the
/// provider gives, the change reported); else it is shown as a file list.
pub open spec fn file_suggestions_shown(
    o: EditorView,
    f: EditorView,
    eo: EditorEvents,
    ef: EditorEvents,
    s: Option<AutocompleteSuggestions>,
    explicit_tab: bool,
) -> bool {
    if explicit_tab && s is Some && s.unwrap().items@.len() == 1 {
        &&& f == (EditorView { state: f.state, preferred_col: None, ..o })
        &&& cursor_ok(f.state)
        &&& ef == (EditorEvents { changed: true, ..eo })
    } else {
        suggestions_shown(o, f, eo, ef, s, AutocompleteState::Force)
    }
}

/// The selected suggestion applied: when the list has a selected item, the
/// text and cursor become what the provider gives, the list is dismissed
/// and the change reported; else nothing changes.
pub open spec fn selection_applied(o: EditorView, f: EditorView, eo: EditorEvents, ef: EditorEvents) -> bool {
    if o.list is Some && selected_of(o.list.unwrap()) is Some {
        &&& f == (EditorView {
            state: f.state,
            preferred_col: None,
            autocomplete: None,
            list: None,
            prefix: Seq::empty(),
            ..o
        })
        &&& cursor_ok(f.state)
        &&& ef == (EditorEvents { changed: true, ..eo })
    } else {
        f == o && ef == eo
    }
}

/// The last index below `i` where `c` occurs in `s`.
pub open spec fn last_index_before(s: Seq<char>, c: char, i: int) -> Option<int>
    decreases i,
{
    if i <= 0 {
        None
    } else if s[i - 1] == c {
        Some(i - 1)
    } else {
        last_index_before(s, c, i - 1)
    }
}

/// The last `@` of `b` starts a file reference: it is at the start or after
/// a space or tab, and (with `bare`) no white space follows it.
pub open spec fn at_ref(b: Seq<char>, bare: bool) -> bool {
    match last_index_before(b, '@', b.len() as int) {
        None => false,
        Some(p) => (p == 0 || b[p - 1] == ' ' || b[p - 1] == '\t') && (bare ==> forall|k: int|
            p <= k < b.len() ==> !is_ws(#[trigger] b[k])),
    }
}

/// The text before the cursor, trimmed, is empty or `/`.
pub open spec fn at_message_start(s: EditorState) -> bool {
    let t = trim(before_cursor(s));
    t.len() == 0 || t == seq!['/']
}

/// Typing `ch` (just inserted into `s`) asks for suggestions: `/` at the
/// start of the message; `@` at the start of the line or after a space or
/// tab; a letter, digit, `.`, `-`, `_` or `/` within a slash command or a
/// bare file reference.
pub open spec fn typing_trigger(s: EditorState, ch: Seq<char>) -> bool {
    let b = before_cursor(s);
    let bb = encode_utf8(b);
    let t = trim_start(b);
    if ch == seq!['/'] && at_message_start(s) {
        true
    } else if ch == seq!['@'] {
        bb.len() == 1 || (bb.len() >= 2 && (bb[bb.len() - 2] == 0x20 || bb[bb.len() - 2] == 0x09))
    } else if ch.len() == 1 && ((byte_len(ch) == 1 && (('a' <= ch[0] && ch[0] <= 'z') || ('A' <= ch[0]
        && ch[0] <= 'Z') || ('0' <= ch[0] && ch[0] <= '9'))) || ch[0] == '.' || ch[0] == '-' || ch[0]
        == '_' || ch[0] == '/') {
        (t.len() > 0 && t[0] == '/') || at_ref(b, true)
    } else {
        false
    }
}

/// Tab outside the list: slash commands are suggested while one is being
/// named (the text before the cursor, left-trimmed, starts with `/` and
/// holds no space), else file paths, a single one applied at once; each
/// for some answer `s` of the provider.
pub open spec fn tab_completed(o: EditorView, f: EditorView, eo: EditorEvents, ef: EditorEvents) -> bool {
    let t = trim_start(before_cursor(o.state));
    if t.len() > 0 && t[0] == '/' && !t.contains(' ') {
        exists|s: Option<AutocompleteSuggestions>| #[trigger] suggestions_shown(o, f, eo, ef, s, AutocompleteState::Regular)
    } else {
        exists|s: Option<AutocompleteSuggestions>| #[trigger] file_suggestions_shown(o, f, eo, ef, s, true)
    }
}

/// After a deletion or undo: suggestions are asked for when the text
/// before the cursor is a slash command or ends in a file reference; else
/// nothing changes.
pub open spec fn retriggered(o: EditorView, f: EditorView, eo: EditorEvents, ef: EditorEvents) -> bool {
    let b = before_cursor(o.state);
    let t = trim_start(b);
    if (t.len() > 0 && t[0] == '/') || (b.contains('@') && at_ref(b, false)) {
        exists|s: Option<AutocompleteSuggestions>| #[trigger] suggestions_shown(o, f, eo, ef, s, AutocompleteState::Regular)
    } else {
        f == o && ef == eo
    }
}

/// What handling key `k` (with input `d` and visual line map `vls`) did.
#[verifier::opaque]
pub open spec fn key_done(
    k: EditorKey,
    o: EditorView,
    f: EditorView,
    eo: EditorEvents,
    ef: EditorEvents,
    r: InputResult,
    d: Seq<char>,
    vls: Seq<VisualLine>,
) -> bool {
    let cl = o.state.cursor_line as int;
    let first = cursor_visual_line_from(vls, 0, cl, o.state.cursor_col as int) == 0;
    let last = cursor_visual_line_from(vls, 0, cl, o.state.cursor_col as int) == vls.len() - 1 || vls.len() == 0;
    match k {
        EditorKey::CtrlC => r == InputResult::Ignored && f == o && ef == eo,
        EditorKey::Undo => r == InputResult::Consumed && undo_applied(o, f, eo, ef),
        EditorKey::ListCancel => r == InputResult::Consumed && f == (EditorView {
            autocomplete: None,
            list: None,
            prefix: Seq::empty(),
            ..o
        }) && ef == (EditorEvents { autocomplete_cancelled: true, ..eo }),
        EditorKey::ListMove => r == InputResult::Consumed && f == (EditorView { list: f.list, ..o })
            && ef == (EditorEvents { autocomplete_updated: true, ..eo }) && (o.list is Some ==> f.list is Some
            && exists|lr: (InputResult, SelectEvent)| #[trigger] list_key_done(o.list.unwrap(), f.list.unwrap(), lr, d)),
        EditorKey::ListTab => r == InputResult::Consumed && completion_applied(o, f),
        EditorKey::ListEnter => if o.prefix.len() > 0 && o.prefix[0] == '/' {
            exists|mid: EditorView, em: EditorEvents| #[trigger] slash_enter(o, mid, f, eo, em, ef, r)
        } else {
            r == InputResult::Consumed && completion_applied(o, f) && ef.alt_enter == eo.alt_enter
        },
        EditorKey::Tab => r == InputResult::Consumed && completion_applied(o, f)
            && (!o.has_provider ==> f == o && ef == eo),
        EditorKey::KillToEnd => r == InputResult::Consumed && (exists|del: Seq<char>|
            #[trigger] after_delete_to_end_of_line(o.state, f.state, del) && kill_done(o, f, del, false))
            && ef == (EditorEvents { changed: true, ..eo }),
        EditorKey::KillToStart => r == InputResult::Consumed && (exists|del: Seq<char>|
            #[trigger] after_delete_to_start_of_line(o.state, f.state, del) && kill_done(o, f, del, true))
            && ef == (EditorEvents { changed: true, ..eo }),
        EditorKey::KillWordBackward => r == InputResult::Consumed && (exists|del: Seq<char>|
            #[trigger] after_delete_word_backwards(o.state, f.state, del) && kill_done(o, f, del, true))
            && ef == (EditorEvents { changed: true, ..eo }),
        EditorKey::KillWordForward => r == InputResult::Consumed && (exists|del: Seq<char>|
            #[trigger] after_delete_word_forwards(o.state, f.state, del) && kill_done(o, f, del, false))
            && ef == (EditorEvents { changed: true, ..eo }),
        EditorKey::Yank => r == InputResult::Consumed && yank_done(o, f, eo, ef),
        EditorKey::YankPop => r == InputResult::Consumed && yank_pop_done(o, f, eo, ef),
        EditorKey::LineStart => r == InputResult::Consumed && moved(o, f, true) && after_move_to_line_start(
            o.state,
            f.state,
            o.preferred_col,
            f.preferred_col,
        ) && ef == eo,
        EditorKey::LineEnd => r == InputResult::Consumed && moved(o, f, true) && after_move_to_line_end(
            o.state,
            f.state,
            o.preferred_col,
            f.preferred_col,
        ) && ef == eo,
        EditorKey::AltEnter => r == InputResult::Consumed && if o.report_alt_enter {
            f == o && ef.changed == eo.changed && (ef.alt_enter matches Some(t) && t@ == text_of(o.state))
        } else {
            line_broken(o, f) && ef == (EditorEvents { changed: true, ..eo })
        },
        EditorKey::NewLine => r == InputResult::Consumed && line_broken(o, f) && ef == (EditorEvents {
            changed: true,
            ..eo
        }),
        EditorKey::Enter => if o.disable_submit {
            r == InputResult::Consumed && f == o && ef == eo
        } else {
            exists|sub: Option<String>|
                #[trigger] submitted(o, f, eo, ef, sub) && match sub {
                    Some(t) => r == InputResult::Submit(t),
                    None => r == InputResult::Consumed,
                }
        },
        EditorKey::Backspace => r == InputResult::Consumed && (exists|ch: bool|
            #[trigger] after_handle_backspace(o.state, f.state, ch) && f.undo.len() == o.undo.len() + 1
                && same_state(f.undo.last(), o.state) && (ch ==> ef.changed) && only_autocomplete_changed(
                EditorView {
                    state: f.state,
                    history: HistoryView { index: None, ..o.history },
                    undo: f.undo,
                    last: None,
                    preferred_col: if ch { None } else { o.preferred_col },
                    ..o
                },
                f,
            )),
        EditorKey::Delete => r == InputResult::Consumed && (exists|ch: bool|
            #[trigger] after_handle_forward_delete(o.state, f.state, ch) && f.undo.len() == o.undo.len() + 1
                && same_state(f.undo.last(), o.state) && (ch ==> ef.changed) && only_autocomplete_changed(
                EditorView {
                    state: f.state,
                    history: HistoryView { index: None, ..o.history },
                    undo: f.undo,
                    last: None,
                    ..o
                },
                f,
            )),
        EditorKey::WordLeft => r == InputResult::Consumed && moved(o, f, true) && after_move_word_backwards(
            o.state,
            f.state,
            o.preferred_col,
            f.preferred_col,
        ) && ef == eo,
        EditorKey::WordRight => r == InputResult::Consumed && moved(o, f, true) && after_move_word_forwards(
            o.state,
            f.state,
            o.preferred_col,
            f.preferred_col,
        ) && ef == eo,
        EditorKey::Up => r == InputResult::Consumed && if (o.state.lines@.len() == 1 && o.state.lines@[0]@.len()
            == 0) || (o.history.index is Some && first) {
            navigated(o, f, eo, ef, -1i32)
        } else if first {
            moved(o, f, false) && after_move_to_line_start(o.state, f.state, o.preferred_col, f.preferred_col)
                && ef == eo
        } else {
            moved(o, f, false) && (f.state.cursor_line as int, f.state.cursor_col as int, f.preferred_col)
                == cursor_moved(o.state.lines@, vls, cl, o.state.cursor_col as int, o.preferred_col, -1, 0)
                && ef == eo
        },
        EditorKey::Down => r == InputResult::Consumed && if o.history.index is Some && last {
            navigated(o, f, eo, ef, 1i32)
        } else if last {
            moved(o, f, false) && after_move_to_line_end(o.state, f.state, o.preferred_col, f.preferred_col)
                && ef == eo
        } else {
            moved(o, f, false) && (f.state.cursor_line as int, f.state.cursor_col as int, f.preferred_col)
                == cursor_moved(o.state.lines@, vls, cl, o.state.cursor_col as int, o.preferred_col, 1, 0)
                && ef == eo
        },
        EditorKey::Right => r == InputResult::Consumed && moved(o, f, false) && (
        f.state.cursor_line as int, f.state.cursor_col as int, f.preferred_col) == cursor_moved(
            o.state.lines@,
            vls,
            cl,
            o.state.cursor_col as int,
            o.preferred_col,
            0,
            1,
        ) && ef == eo,
        EditorKey::Left => r == InputResult::Consumed && moved(o, f, false) && (
        f.state.cursor_line as int, f.state.cursor_col as int, f.preferred_col) == cursor_moved(
            o.state.lines@,
            vls,
            cl,
            o.state.cursor_col as int,
            o.preferred_col,
            0,
            -1,
        ) && ef == eo,
        EditorKey::ShiftSpace => r == InputResult::Consumed && char_typed(o, f, eo, ef, seq![' ']),
        EditorKey::JumpForward => r == InputResult::Consumed && f == (EditorView {
            jump: Some(JumpMode::Forward),
            ..o
        }) && ef == eo,
        EditorKey::JumpBackward => r == InputResult::Consumed && f == (EditorView {
            jump: Some(JumpMode::Backward),
            ..o
        }) && ef == eo,
        EditorKey::Kitty => r == InputResult::Consumed && text_inserted(o, f, eo, ef, kitty_printable(d).unwrap()),
        EditorKey::Char => r == InputResult::Consumed && char_typed(o, f, eo, ef, d),
        EditorKey::Other => r == InputResult::Ignored && f == o && ef == eo,
    }
}

/// A jump to the next (`forward`) or previous `d` from the cursor, which
/// ends jump mode.
pub open spec fn jumped(o: EditorView, f: EditorView, forward: bool, d: Seq<char>) -> bool {
    &&& after_jump_to_char(o.state, f.state, o.preferred_col, f.preferred_col, d, forward)
    &&& f == (EditorView { state: f.state, preferred_col: f.preferred_col, jump: None, ..o })
}

/// The paste buffer after input `d`, when a bracketed paste starts in `d`
/// (its start markers removed) or is under way (`d` appended); `None`
/// outside a paste.
pub open spec fn paste_buffered(o: EditorView, d: Seq<char>) -> Option<Seq<char>> {
    if seq_find(d, paste_start(), 0) is Some {
        Some(remove_from(d, paste_start(), 0))
    } else if o.in_paste {
        Some(o.paste + d)
    } else {
        None
    }
}

/// A bracketed paste whose buffer `buf` holds the end marker at `e`: what
/// comes before it is pasted (with the paste under way in `o`), the paste
/// ends, and what follows the marker is left pending.
pub open spec fn paste_finished(
    o: EditorView,
    f: EditorView,
    eo: EditorEvents,
    ef: EditorEvents,
    buf: Seq<char>,
    e: int,
) -> bool {
    exists|p: EditorView|
        #[trigger] paste_done(EditorView { in_paste: true, paste: buf, ..o }, p, eo, ef, buf.take(e)) && f
            == (EditorView { in_paste: false, paste: Seq::empty(), pending_input: buf.skip(e + 6), ..p })
}

/// What handling input `d` (with visual line map `vls`) did: in jump mode
/// a jump key ends it and a printable input jumps to it (a control input
/// ends it and is handled as below); a bracketed paste is buffered until
/// its end marker and then pasted, what follows the marker left pending;
/// any other input is a key.
pub open spec fn input_done(
    o: EditorView,
    f: EditorView,
    eo: EditorEvents,
    ef: EditorEvents,
    r: InputResult,
    d: Seq<char>,
    vls: Seq<VisualLine>,
) -> bool {
    let b = encode_utf8(d);
    if o.jump is Some && (bound(EditorAction::JumpForward, d) || bound(EditorAction::JumpBackward, d)) {
        r == InputResult::Consumed && f == (EditorView { jump: None, ..o }) && ef == eo
    } else if o.jump is Some && b.len() > 0 && b[0] >= 32 {
        r == InputResult::Consumed && jumped(o, f, o.jump == Some(JumpMode::Forward), d) && ef == eo
    } else {
        let o1 = EditorView { jump: None, ..o };
        match paste_buffered(o1, d) {
            Some(buf) => r == InputResult::Consumed && match seq_find(buf, paste_end(), 0) {
                None => f == (EditorView { in_paste: true, paste: buf, ..o1 }) && ef == eo,
                Some(e) => paste_finished(o1, f, eo, ef, buf, e),
            },
            None => key_done(
                editor_key(d, o1.autocomplete is Some && o1.list is Some, o1.autocomplete is Some),
                o1,
                f,
                eo,
                ef,
                r,
                d,
                vls,
            ),
        }
    }
}

/// The first row shown after scrolling from `offset` so that the cursor's
/// visual line `cursor` is in view, with `count` rows laid out and `height`
/// rows visible.
pub open spec fn scrolled_to(offset: int, cursor: int, count: int, height: int) -> int {
    if count <= height {
        0
    } else {
        let o = if cursor < offset {
            cursor
        } else if cursor >= offset + height {
            cursor - height + 1
        } else {
            offset
        };
        if o > count - height {
            count - height
        } else {
            o
        }
    }
}

/// Text width inside the border and padding (saturating at 0).
pub open spec fn content_width_of(width: int, padding_x: int) -> int {
    if width >= 2 * (padding_x + 1) {
        width - 2 * (padding_x + 1)
    } else {
        0
    }
}

/// Width the text is laid out in: the content width, less a column for the
/// cursor when there is no padding, at least 1.
pub open spec fn layout_width_of(width: int, padding_x: int) -> int {
    let c = content_width_of(width, padding_x);
    let w = if padding_x == 0 {
        if c >= 1 {
            c - 1
        } else {
            0
        }
    } else {
        c
    };
    if w >= 1 {
        w
    } else {
        1
    }
}

/// Text width inside the border and padding.
pub fn content_width(width: usize, padding_x: usize) -> (r: usize)
    requires
        2 * (padding_x + 1) <= usize::MAX,
    ensures
        r == content_width_of(width as int, padding_x as int),
{
    let edge = 2 * (padding_x + 1);
    if width >= edge {
        width - edge
    } else {
        0
    }
}

/// Width the text is laid out in.
pub fn layout_width(width: usize, padding_x: usize) -> (r: usize)
    requires
        2 * (padding_x + 1) <= usize::MAX,
    ensures
        r == layout_width_of(width as int, padding_x as int),
{
    let c = content_width(width, padding_x);
    let w = if padding_x == 0 {
        if c >= 1 {
            c - 1
        } else {
            0
        }
    } else {
        c
    };
    if w >= 1 {
        w
    } else {
        1
    }
}

/// Typing undone: typing into the editor (with no autocomplete provider)
/// and then undoing gives back the text and cursor from before, and the
/// undo history from before.
pub proof fn law_undo_after_typing(
    o: EditorView,
    m: EditorView,
    f: EditorView,
    eo: EditorEvents,
    em: EditorEvents,
    ef: EditorEvents,
    r1: InputResult,
    r2: InputResult,
    typed: Seq<char>,
    undo_key: Seq<char>,
    vls1: Seq<VisualLine>,
    vls2: Seq<VisualLine>,
)
    requires
        !o.has_provider,
        key_done(EditorKey::Char, o, m, eo, em, r1, typed, vls1),
        key_done(EditorKey::Undo, m, f, em, ef, r2, undo_key, vls2),
    ensures
        same_state(f.state, o.state),
        f.undo == o.undo,
        f.history.entries == o.history.entries,
{
    reveal(key_done);
    assert(m.undo.drop_last() =~= o.undo);
    let a = f.state.lines@.map_values(|s: String| s@);
    let b = m.undo.last().lines@.map_values(|s: String| s@);
    let c = o.state.lines@.map_values(|s: String| s@);
    assert(a == b && b == c);
}

/// A large paste round trip: a paste of more than ten lines or a thousand
/// bytes into an empty editor is folded into a marker, and submitting then
/// gives back the pasted text (as cleaned), when that text holds no marker
/// of the same paste.
pub proof fn law_large_paste_submits_pasted_text(
    o: EditorView,
    f: EditorView,
    g: EditorView,
    eo: EditorEvents,
    ef: EditorEvents,
    eg: EditorEvents,
    pasted: Seq<char>,
    r: Option<String>,
)
    requires
        o.state.lines@.len() == 1,
        o.state.lines@[0]@.len() == 0,
        o.state.cursor_line == 0,
        o.state.cursor_col == 0,
        o.pastes.len() == 0,
        o.paste_counter < u64::MAX,
        newline_count(clean_paste(pasted)) + 1 > 10 || encode_utf8(clean_paste(pasted)).len() > 1000,
        seq_find(clean_paste(pasted), paste_pattern((o.paste_counter + 1) as u64), 0) is None,
        paste_done(o, f, eo, ef, pasted),
        submitted(f, g, ef, eg, r),
    ensures
        r matches Some(s) && s@ == clean_paste(pasted),
{
    broadcast use encode_utf8_decode_utf8;

    let t = clean_paste(pasted);
    assert(paste_text(o.state, pasted) == t);
    let id = f.paste_counter;
    let m = paste_marker(id, newline_count(t) + 1, encode_utf8(t).len() as nat);
    self::paste::lemma_marker_plain(id, newline_count(t) + 1, encode_utf8(t).len() as nat);
    crate::strs::lemma_normalize_no_cr(m);
    crate::strs::lemma_char_index_none(m, '\n', 0);
    assert(text_pieces(m) == seq![m]);
    let empty = lb(o.state.lines@[0]);
    assert(empty =~= Seq::<u8>::empty());
    assert(line_bytes(o.state.lines@) =~= seq![empty]);
    assert(splice(empty, 0, 0, encode_utf8(m)) =~= encode_utf8(m));
    let fl = f.state.lines@;
    assert(line_bytes(fl) =~= seq![encode_utf8(m)]);
    assert(fl.len() == 1);
    assert(encode_utf8(fl[0]@) == line_bytes(fl)[0]);
    assert(decode_utf8(encode_utf8(fl[0]@)) == fl[0]@);
    assert(decode_utf8(encode_utf8(m)) == m);
    assert(fl[0]@ == m);
    assert(fl.map_values(|l: String| l@) =~= seq![m]);
    assert(text_of(f.state) == m);
    assert(trim(m) == m) by {
        assert(!crate::strs::is_ws(m[0]));
        assert(crate::strs::trim_start(m) == m);
        assert(!crate::strs::is_ws(m.last()));
    }
    assert(f.pastes =~= seq![(id, t)]);
    self::paste::law_marker_expands_to_paste(id, newline_count(t) + 1, encode_utf8(t).len() as nat, t);
}

/// Multi-line editor component.
pub struct Editor<P> {
    state: EditorState,
    focused: bool,
    select_list_theme: SelectListTheme,
    symbols: SymbolTheme,
    theme_padding_x: Option<usize>,
    hint_style: Option<Style>,
    use_terminal_cursor: bool,
    /// When set, replaces the normal cursor glyph at the end of the text.
    pub cursor_override: Option<String>,
    /// Display width of the cursor override.
    pub cursor_override_width: Option<usize>,
    padding_x_override: Option<usize>,
    max_height: Option<usize>,
    scroll_offset: usize,
    kill_ring: KillRing,
    last_action: Option<EditAction>,
    jump_mode: Option<JumpMode>,
    preferred_visual_col: Option<usize>,
    /// Style of the border.
    pub border_color: Style,
    autocomplete_provider: Option<P>,
    autocomplete_list: Option<SelectList>,
    autocomplete_state: Option<AutocompleteState>,
    autocomplete_prefix: String,
    autocomplete_max_visible: usize,
    pastes: Vec<(u64, String)>,
    paste_counter: u64,
    paste_buffer: String,
    is_in_paste: bool,
    pending_input: String,
    history: History,
    undo_stack: Vec<EditorState>,
    suspend_undo: bool,
    top_border_content: Option<EditorTopBorder>,
    /// Alt+Enter is reported to the owner instead of inserting a line.
    pub report_alt_enter: bool,
    /// Enter does not submit.
    pub disable_submit: bool,
    keys: EditorKeybindingsManager,
    events: EditorEvents,
}

impl<P> View for Editor<P> {
    type V = EditorView;

    closed spec fn view(&self) -> EditorView {
        EditorView {
            state: self.state,
            history: self.history@,
            ring: self.kill_ring@,
            last: self.last_action,
            jump: self.jump_mode,
            preferred_col: self.preferred_visual_col,
            undo: self.undo_stack@,
            autocomplete: self.autocomplete_state,
            prefix: self.autocomplete_prefix@,
            list: self.autocomplete_list,
            pastes: self.pastes@.map_values(|p: (u64, String)| (p.0, p.1@)),
            paste_counter: self.paste_counter,
            in_paste: self.is_in_paste,
            paste: self.paste_buffer@,
            pending_input: self.pending_input@,
            has_provider: self.autocomplete_provider is Some,
            focused: self.focused,
            use_terminal_cursor: self.use_terminal_cursor,
            max_height: self.max_height,
            padding_x_override: self.padding_x_override,
            scroll_offset: self.scroll_offset as int,
            max_visible: self.autocomplete_max_visible as int,
            disable_submit: self.disable_submit,
            report_alt_enter: self.report_alt_enter,
        }
    }
}

impl<P: AutocompleteProvider> Editor<P> {
    /// The text is laid out in lines with the cursor on one of them, every
    /// undo snapshot has its cursor on a character boundary, and the keys
    /// are the default bindings.
    pub closed spec fn inv(&self) -> bool {
        &&& structural(self.state)
        &&& forall|i: int| 0 <= i < self.undo_stack@.len() ==> cursor_ok(#[trigger] self.undo_stack@[i])
        &&& forall|a: EditorAction| #[trigger] self.keys.keys_of(a) == default_keys(a)
    }

    /// The events reported since they were last taken.
    pub closed spec fn pending(&self) -> EditorEvents {
        self.events
    }

    /// Create an empty editor.
    pub fn new(
        border_color: Style,
        select_list_theme: SelectListTheme,
        symbols: SymbolTheme,
        theme_padding_x: Option<usize>,
        hint_style: Option<Style>,
    ) -> (r: Self)
        ensures
            r.inv(),
            cursor_ok(r@.state),
            r@.state.lines@.len() == 1,
            r@.state.lines@[0]@.len() == 0,
            r@.state.cursor_line == 0,
            r@.state.cursor_col == 0,
            r@.history.entries.len() == 0,
            r@.history.index is None,
            r@.ring.len() == 0,
            r@.last is None,
            r@.jump is None,
            r@.preferred_col is None,
            r@.undo.len() == 0,
            r@.autocomplete is None,
            r@.list is None,
            r@.prefix.len() == 0,
            r@.pastes.len() == 0,
            r@.paste_counter == 0,
            !r@.in_paste,
            r@.paste.len() == 0,
            r@.pending_input.len() == 0,
            !r@.has_provider,
            !r@.focused,
            !r@.use_terminal_cursor,
            r@.max_height is None,
            r@.padding_x_override is None,
            r@.scroll_offset == 0,
            r@.max_visible == 5,
            !r@.disable_submit,
            !r@.report_alt_enter,
    {
        let state = EditorState::default();
        let r = Editor {
            state,
            focused: false,
            select_list_theme,
            symbols,
            theme_padding_x,
            hint_style,
            use_terminal_cursor: false,
            cursor_override: None,
            cursor_override_width: None,
            padding_x_override: None,
            max_height: None,
            scroll_offset: 0,
            kill_ring: KillRing::new(),
            last_action: None,
            jump_mode: None,
            preferred_visual_col: None,
            border_color,
            autocomplete_provider: None,
            autocomplete_list: None,
            autocomplete_state: None,
            autocomplete_prefix: String::new(),
            autocomplete_max_visible: 5,
            pastes: Vec::new(),
            paste_counter: 0,
            paste_buffer: String::new(),
            is_in_paste: false,
            pending_input: String::new(),
            history: History::new(),
            undo_stack: Vec::new(),
            suspend_undo: false,
            top_border_content: None,
            report_alt_enter: false,
            disable_submit: false,
            keys: EditorKeybindingsManager::new(),
            events: EditorEvents::none(),
        };
        proof {
            assert(r@.pastes =~= Seq::<(u64, Seq<char>)>::empty());
            assert(lb(r.state.lines@[0]) =~= Seq::<u8>::empty());
            crate::strs::lemma_boundary_ends(r.state.lines@[0]@);
        }
        r
    }

    /// Use `provider` for completions.
    pub fn set_autocomplete_provider(&mut self, provider: P)
        requires
            old(self).inv(),
        ensures
            final(self).inv(),
            final(self)@ == (EditorView { has_provider: true, ..old(self)@ }),
    {
        self.autocomplete_provider = Some(provider);
    }

    /// Set (or clear) the custom top border.
    pub fn set_top_border(&mut self, content: Option<EditorTopBorder>)
        requires
            old(self).inv(),
        ensures
            final(self).inv(),
            final(self)@ == old(self)@,
            final(self).top_border() == content,
    {
        self.top_border_content = content;
    }

    /// The custom top border.
    pub closed spec fn top_border(&self) -> Option<EditorTopBorder> {
        self.top_border_content
    }

    pub fn set_use_terminal_cursor(&mut self, use_terminal_cursor: bool)
        requires
            old(self).inv(),
        ensures
            final(self).inv(),
            final(self)@ == (EditorView { use_terminal_cursor, ..old(self)@ }),
    {
        self.use_terminal_cursor = use_terminal_cursor;
    }

    pub fn get_use_terminal_cursor(&self) -> (r: bool)
        ensures
            r == self@.use_terminal_cursor,
    {
        self.use_terminal_cursor
    }

    /// Limit the height (and scroll back to the top).
    pub fn set_max_height(&mut self, max_height: Option<usize>)
        requires
            old(self).inv(),
        ensures
            final(self).inv(),
            final(self)@ == (EditorView { max_height, scroll_offset: 0, ..old(self)@ }),
    {
        self.max_height = max_height;
        self.scroll_offset = 0;
    }

    pub fn set_padding_x(&mut self, padding_x: usize)
        requires
            old(self).inv(),
        ensures
            final(self).inv(),
            final(self)@ == (EditorView { padding_x_override: Some(padding_x), ..old(self)@ }),
    {
        self.padding_x_override = Some(padding_x);
    }

    pub fn get_autocomplete_max_visible(&self) -> (r: usize)
        ensures
            r == self@.max_visible,
    {
        self.autocomplete_max_visible
    }

    /// Set how many suggestions the list shows, clamped to 3 through 20.
    pub fn set_autocomplete_max_visible(&mut self, max_visible: usize)
        requires
            old(self).inv(),
        ensures
            final(self).inv(),
            final(self)@ == (EditorView {
                max_visible: if max_visible < 3 {
                    3
                } else if max_visible > 20 {
                    20
                } else {
                    max_visible as int
                },
                ..old(self)@
            }),
    {
        self.autocomplete_max_visible = if max_visible < 3 {
            3
        } else if max_visible > 20 {
            20
        } else {
            max_visible
        };
    }

    /// Load the prompt history.
    pub fn set_history_entries(&mut self, entries: Vec<String>)
        requires
            old(self).inv(),
        ensures
            final(self).inv(),
            final(self)@ == (EditorView {
                history: HistoryView { entries: entries@.map_values(|s: String| s@), index: None },
                ..old(self)@
            }),
    {
        self.history.load(entries);
    }

    /// Add a prompt to the history.
    pub fn add_to_history(&mut self, text: &str)
        requires
            old(self).inv(),
        ensures
            final(self).inv(),
            final(self)@ == (EditorView {
                history: HistoryView { entries: added(old(self)@.history.entries, text@), ..old(self)@.history },
                ..old(self)@
            }),
    {
        self.history.add(text);
    }

    /// The text: the lines joined with newlines.
    pub fn get_text(&self) -> (r: String)
        ensures
            r@ == self::state::join_lines(self@.state.lines@.map_values(|s: String| s@)),
    {
        self.state.text()
    }

    /// The lines.
    pub fn get_lines(&self) -> (r: Vec<String>)
        ensures
            r@.map_values(|s: String| s@) == self@.state.lines@.map_values(|s: String| s@),
    {
        let n = self.state.lines.len();
        let mut r: Vec<String> = Vec::new();
        let mut i: usize = 0;
        while i < n
            invariant
                n == self.state.lines@.len(),
                i <= n,
                r@.len() == i,
                forall|j: int| 0 <= j < i ==> (#[trigger] r@[j])@ == self.state.lines@[j]@,
            decreases n - i,
        {
            r.push(self.state.lines[i].clone());
            i = i + 1;
        }
        proof {
            assert(r@.map_values(|s: String| s@) =~= self.state.lines@.map_values(|s: String| s@));
        }
        r
    }

    /// The cursor: line and byte offset.
    pub fn get_cursor(&self) -> (r: (usize, usize))
        ensures
            r == (self@.state.cursor_line, self@.state.cursor_col),
    {
        (self.state.cursor_line, self.state.cursor_col)
    }

    /// Whether the autocomplete list is showing.
    pub fn is_showing_autocomplete(&self) -> (r: bool)
        ensures
            r == (self@.autocomplete is Some),
    {
        self.autocomplete_state.is_some()
    }

    /// Take the events reported since the last call.
    pub fn take_events(&mut self) -> (r: EditorEvents)
        requires
            old(self).inv(),
        ensures
            final(self).inv(),
            final(self)@ == old(self)@,
            r == old(self).pending(),
            !final(self).pending().changed,
            final(self).pending().alt_enter is None,
            !final(self).pending().autocomplete_updated,
            !final(self).pending().autocomplete_cancelled,
    {
        let mut ev = EditorEvents::none();
        std::mem::swap(&mut ev, &mut self.events);
        ev
    }

    // ── Internal helpers ────────────────────────────────────────────

    /// Take the text and cursor of a completion, and report the change.
    fn install_completion(&mut self, result: CompletionResult)
        requires
            old(self).inv(),
            result.lines@.len() > 0,
            result.cursor_line < result.lines@.len(),
            col_at_boundary(result.lines@[result.cursor_line as int], result.cursor_col as int),
        ensures
            final(self).inv(),
            final(self)@ == (EditorView { state: final(self)@.state, preferred_col: None, ..old(self)@ }),
            cursor_ok(final(self)@.state),
            final(self).pending() == (EditorEvents { changed: true, ..old(self).pending() }),
    {
        self.state.lines = result.lines;
        self.state.cursor_line = result.cursor_line;
        set_cursor_col(&mut self.state, result.cursor_col, &mut self.preferred_visual_col);
        self.notify_change();
    }

    /// Report that the text changed.
    fn notify_change(&mut self)
        requires
            old(self).inv(),
        ensures
            final(self)@ == old(self)@,
            final(self).pending() == (EditorEvents { changed: true, ..old(self).pending() }),
            final(self).inv(),
    {
        self.events.changed = true;
    }

    /// Save the text and cursor for undo (unless undo is suspended).
    fn record_undo_state(&mut self)
        requires
            old(self).inv(),
            cursor_ok(old(self).state),
        ensures
            final(self).inv(),
            final(self).pending() == old(self).pending(),
            final(self)@.undo.len() == old(self)@.undo.len() + 1,
            same_state(final(self)@.undo.last(), old(self)@.state),
            final(self)@.undo.drop_last() == old(self)@.undo,
            final(self)@ == (EditorView { undo: final(self)@.undo, ..old(self)@ }),
    {
        let snap = clone_state(&self.state);
        proof {
            lemma_same_state_ok(snap, self.state);
        }
        self.undo_stack.push(snap);
        proof {
            assert(self@.undo.drop_last() =~= old(self)@.undo);
        }
    }

    /// Kill `text` into the kill ring, joining the previous kill when the
    /// last edit was one.
    fn record_kill(&mut self, text: &str, backward: bool)
        requires
            old(self).inv(),
        ensures
            final(self).inv(),
            final(self).pending() == old(self).pending(),
            text@.len() == 0 ==> final(self)@ == old(self)@,
            text@.len() > 0 ==> final(self)@ == (EditorView {
                ring: pushed(old(self)@.ring, text@, backward, old(self)@.last == Some(EditAction::Kill)),
                last: Some(EditAction::Kill),
                ..old(self)@
            }),
    {
        if text.unicode_len() == 0 {
            return;
        }
        let accumulate = matches!(self.last_action, Some(EditAction::Kill));
        self.kill_ring.push(text, backward, accumulate);
        self.last_action = Some(EditAction::Kill);
    }

    /// Dismiss the autocomplete list (reporting it when `notify` and it
    /// was showing).
    fn cancel_autocomplete(&mut self, notify: bool)
        requires
            old(self).inv(),
        ensures
            final(self).inv(),
            final(self)@ == (EditorView { autocomplete: None, list: None, prefix: Seq::empty(), ..old(self)@ }),
            final(self).pending() == (EditorEvents {
                autocomplete_cancelled: old(self).pending().autocomplete_cancelled || (notify
                    && old(self)@.autocomplete is Some),
                ..old(self).pending()
            }),
    {
        let was_active = self.autocomplete_state.is_some();
        self.autocomplete_state = None;
        self.autocomplete_list = None;
        self.autocomplete_prefix = String::new();
        if notify && was_active {
            self.events.autocomplete_cancelled = true;
        }
    }

    /// Ask the provider for suggestions and show them (or dismiss the list
    /// when there are none).
    fn try_trigger_autocomplete(&mut self)
        requires
            old(self).inv(),
            cursor_ok(old(self).state),
        ensures
            final(self).inv(),
            !old(self)@.has_provider ==> final(self)@ == old(self)@ && final(self).pending() == old(self).pending(),
            only_autocomplete_changed(old(self)@, final(self)@),
            final(self).pending().changed == old(self).pending().changed,
            final(self).pending().alt_enter == old(self).pending().alt_enter,
            old(self)@.has_provider ==> exists|s: Option<AutocompleteSuggestions>|
                #[trigger] suggestions_shown(
                    old(self)@,
                    final(self)@,
                    old(self).pending(),
                    final(self).pending(),
                    s,
                    AutocompleteState::Regular,
                ),
    {
        let mut provider = match self.autocomplete_provider.take() {
            Some(p) => p,
            None => return,
        };
        let suggestions = provider.get_suggestions(
            self.state.lines.as_slice(),
            self.state.cursor_line,
            self.state.cursor_col,
        );
        let ghost sg = suggestions;
        self.autocomplete_provider = Some(provider);
        match suggestions {
            Some(sugg) => {
                if sugg.items.len() > 0 {
                    self.autocomplete_prefix = sugg.prefix;
                    self.autocomplete_list = Some(
                        SelectList::new(sugg.items, self.autocomplete_max_visible, self.select_list_theme.clone()),
                    );
                    self.autocomplete_state = Some(AutocompleteState::Regular);
                    self.events.autocomplete_updated = true;
                    proof {
                        assert(suggestions_shown(old(self)@, self@, old(self).pending(), self.pending(), sg, AutocompleteState::Regular));
                    }
                    return;
                }
            },
            None => {},
        }
        self.cancel_autocomplete(false);
        self.events.autocomplete_updated = true;
        proof {
            assert(suggestions_shown(old(self)@, self@, old(self).pending(), self.pending(), sg, AutocompleteState::Regular));
        }
    }

    /// Ask the provider for file suggestions (Tab). With `explicit_tab` and
    /// a single suggestion, apply it at once.
    #[verifier::rlimit(100)]
    fn force_file_autocomplete(&mut self, explicit_tab: bool)
        requires
            old(self).inv(),
            cursor_ok(old(self).state),
        ensures
            final(self).inv(),
            !old(self)@.has_provider ==> final(self)@ == old(self)@ && final(self).pending() == old(self).pending(),
            completion_applied(old(self)@, final(self)@),
            !explicit_tab ==> only_autocomplete_changed(old(self)@, final(self)@) && final(self).pending().changed
                == old(self).pending().changed,
            final(self).pending().alt_enter == old(self).pending().alt_enter,
            old(self)@.has_provider ==> exists|s: Option<AutocompleteSuggestions>|
                #[trigger] file_suggestions_shown(
                    old(self)@,
                    final(self)@,
                    old(self).pending(),
                    final(self).pending(),
                    s,
                    explicit_tab,
                ),
    {
        let mut provider = match self.autocomplete_provider.take() {
            Some(p) => p,
            None => return,
        };
        let suggestions = provider.get_force_file_suggestions(
            self.state.lines.as_slice(),
            self.state.cursor_line,
            self.state.cursor_col,
        );
        let ghost sg = suggestions;
        match suggestions {
            Some(sugg) => {
                if sugg.items.len() > 0 {
                    if explicit_tab && sugg.items.len() == 1 {
                        let item = sugg.items[0].clone();
                        let result = provider.apply_completion(
                            self.state.lines.as_slice(),
                            self.state.cursor_line,
                            self.state.cursor_col,
                            &item,
                            sugg.prefix.as_str(),
                        );
                        self.autocomplete_provider = Some(provider);
                        self.install_completion(result);
                        proof {
                            assert(file_suggestions_shown(old(self)@, self@, old(self).pending(), self.pending(), sg, explicit_tab));
                        }
                        return;
                    }
                    self.autocomplete_provider = Some(provider);
                    self.autocomplete_prefix = sugg.prefix;
                    self.autocomplete_list = Some(
                        SelectList::new(sugg.items, self.autocomplete_max_visible, self.select_list_theme.clone()),
                    );
                    self.autocomplete_state = Some(AutocompleteState::Force);
                    self.events.autocomplete_updated = true;
                    proof {
                        assert(file_suggestions_shown(old(self)@, self@, old(self).pending(), self.pending(), sg, explicit_tab));
                    }
                    return;
                }
            },
            None => {},
        }
        self.autocomplete_provider = Some(provider);
        self.cancel_autocomplete(false);
        self.events.autocomplete_updated = true;
        proof {
            assert(file_suggestions_shown(old(self)@, self@, old(self).pending(), self.pending(), sg, explicit_tab));
        }
    }

    /// Refresh the suggestions while the list is showing.
    fn update_autocomplete(&mut self)
        requires
            old(self).inv(),
            cursor_ok(old(self).state),
        ensures
            final(self).inv(),
            !old(self)@.has_provider || old(self)@.autocomplete is None ==> final(self)@ == old(self)@
                && final(self).pending() == old(self).pending(),
            only_autocomplete_changed(old(self)@, final(self)@),
            final(self).pending().changed == old(self).pending().changed,
            final(self).pending().alt_enter == old(self).pending().alt_enter,
            old(self)@.has_provider && old(self)@.autocomplete == Some(AutocompleteState::Regular) ==> exists|
                s: Option<AutocompleteSuggestions>,
            |
                #[trigger] suggestions_shown(
                    old(self)@,
                    final(self)@,
                    old(self).pending(),
                    final(self).pending(),
                    s,
                    AutocompleteState::Regular,
                ),
            old(self)@.has_provider && old(self)@.autocomplete == Some(AutocompleteState::Force) ==> exists|
                s: Option<AutocompleteSuggestions>,
            |
                #[trigger] file_suggestions_shown(
                    old(self)@,
                    final(self)@,
                    old(self).pending(),
                    final(self).pending(),
                    s,
                    false,
                ),
    {
        if self.autocomplete_state.is_none() || self.autocomplete_provider.is_none() {
            return;
        }
        if matches!(self.autocomplete_state, Some(AutocompleteState::Force)) {
            self.force_file_autocomplete(false);
            return;
        }
        let mut provider = match self.autocomplete_provider.take() {
            Some(p) => p,
            None => return,
        };
        let suggestions = provider.get_suggestions(
            self.state.lines.as_slice(),
            self.state.cursor_line,
            self.state.cursor_col,
        );
        let ghost sg = suggestions;
        self.autocomplete_provider = Some(provider);
        match suggestions {
            Some(sugg) => {
                if sugg.items.len() > 0 {
                    self.autocomplete_prefix = sugg.prefix;
                    self.autocomplete_list = Some(
                        SelectList::new(sugg.items, self.autocomplete_max_visible, self.select_list_theme.clone()),
                    );
                    self.events.autocomplete_updated = true;
                    proof {
                        assert(suggestions_shown(old(self)@, self@, old(self).pending(), self.pending(), sg, AutocompleteState::Regular));
                    }
                    return;
                }
            },
            None => {},
        }
        self.cancel_autocomplete(false);
        self.events.autocomplete_updated = true;
        proof {
            assert(suggestions_shown(old(self)@, self@, old(self).pending(), self.pending(), sg, AutocompleteState::Regular));
        }
    }

    /// Whether `text` begins with `/`.
    fn starts_with_slash(text: &str) -> (r: bool)
        ensures
            r == (text@.len() > 0 && text@[0] == '/'),
    {
        let v = crate::strs::chars_of(text);
        v.len() > 0 && v[0] == '/'
    }

    /// Whether `text` holds `c`.
    fn has_char(text: &str, c: char) -> (r: bool)
        ensures
            r == text@.contains(c),
    {
        let v = crate::strs::chars_of(text);
        let mut i: usize = 0;
        while i < v.len()
            invariant
                v@ == text@,
                i <= v@.len(),
                forall|j: int| 0 <= j < i ==> v@[j] != c,
            decreases v@.len() - i,
        {
            if v[i] == c {
                assert(text@[i as int] == c);
                return true;
            }
            i = i + 1;
        }
        false
    }

    /// Whether the last `@` of `before` starts a file reference: it is at
    /// the start or after a space or tab (and, with `bare`, no white space
    /// follows it).
    fn at_reference(before: &str, bare: bool) -> (r: bool)
        ensures
            r == at_ref(before@, bare),
    {
        let v = crate::strs::chars_of(before);
        let n = v.len();
        let mut i = n;
        while i > 0
            invariant
                i <= n,
                n == v@.len(),
                v@ == before@,
                last_index_before(v@, '@', n as int) == last_index_before(v@, '@', i as int),
            decreases i,
        {
            if v[i - 1] == '@' {
                let pos = i - 1;
                let starts = pos == 0 || v[pos - 1] == ' ' || v[pos - 1] == '\t';
                if !starts {
                    return false;
                }
                if !bare {
                    return true;
                }
                let mut k = pos;
                while k < n
                    invariant
                        pos <= k <= n,
                        n == v@.len(),
                        v@ == before@,
                        last_index_before(v@, '@', n as int) == Some(pos as int),
                        pos == 0 || v@[pos - 1] == ' ' || v@[pos - 1] == '\t',
                        bare,
                        forall|j: int| pos <= j < k ==> !is_ws(#[trigger] v@[j]),
                    decreases n - k,
                {
                    if crate::strs::is_whitespace_char(v[k]) {
                        return false;
                    }
                    k = k + 1;
                }
                return true;
            }
            i = i - 1;
        }
        false
    }

    /// The text before the cursor on its line.
    fn before_text(&self) -> (r: String)
        requires
            cursor_ok(self.state),
        ensures
            r@ == before_cursor(self.state),
    {
        let before = self.state.text_before_cursor();
        proof {
            broadcast use encode_utf8_decode_utf8;

            assert(decode_utf8(encode_utf8(before@)) == before@);
        }
        before
    }

    /// After a deletion or undo: show suggestions again when the text
    /// before the cursor is a slash command or ends in a file reference.
    fn try_retrigger_autocomplete(&mut self)
        requires
            old(self).inv(),
            cursor_ok(old(self).state),
        ensures
            final(self).inv(),
            !old(self)@.has_provider ==> final(self)@ == old(self)@ && final(self).pending() == old(self).pending(),
            only_autocomplete_changed(old(self)@, final(self)@),
            final(self).pending().changed == old(self).pending().changed,
            final(self).pending().alt_enter == old(self).pending().alt_enter,
            old(self)@.has_provider ==> retriggered(old(self)@, final(self)@, old(self).pending(), final(self).pending()),
    {
        let before = self.before_text();
        let trimmed = crate::strs::trim_start_string(before.as_str());
        if Self::starts_with_slash(trimmed.as_str()) || (Self::has_char(before.as_str(), '@')
            && Self::at_reference(before.as_str(), false)) {
            self.try_trigger_autocomplete();
        }
    }

    /// Tab outside the list: suggest slash commands while one is being
    /// named, else complete a file path.
    fn handle_tab_completion(&mut self)
        requires
            old(self).inv(),
            cursor_ok(old(self).state),
        ensures
            final(self).inv(),
            !old(self)@.has_provider ==> final(self)@ == old(self)@ && final(self).pending() == old(self).pending(),
            completion_applied(old(self)@, final(self)@),
            final(self).pending().alt_enter == old(self).pending().alt_enter,
            old(self)@.has_provider ==> tab_completed(old(self)@, final(self)@, old(self).pending(), final(self).pending()),
    {
        if self.autocomplete_provider.is_none() {
            return;
        }
        let before = self.before_text();
        let trimmed = crate::strs::trim_start_string(before.as_str());
        if Self::starts_with_slash(trimmed.as_str()) && !Self::has_char(trimmed.as_str(), ' ') {
            self.try_trigger_autocomplete();
        } else {
            self.force_file_autocomplete(true);
        }
    }

    /// Apply the selected suggestion and dismiss the list.
    fn apply_autocomplete_selection(&mut self)
        requires
            old(self).inv(),
            cursor_ok(old(self).state),
        ensures
            final(self).inv(),
            !old(self)@.has_provider ==> final(self)@ == old(self)@ && final(self).pending() == old(self).pending(),
            completion_applied(old(self)@, final(self)@),
            final(self).pending().alt_enter == old(self).pending().alt_enter,
            old(self)@.has_provider ==> selection_applied(old(self)@, final(self)@, old(self).pending(), final(self).pending()),
    {
        let provider = match self.autocomplete_provider.take() {
            Some(p) => p,
            None => return,
        };
        let selected = match &self.autocomplete_list {
            Some(list) => match list.selected_item() {
                Some(item) => Some(item.clone()),
                None => None,
            },
            None => None,
        };
        match selected {
            Some(item) => {
                let result = provider.apply_completion(
                    self.state.lines.as_slice(),
                    self.state.cursor_line,
                    self.state.cursor_col,
                    &item,
                    self.autocomplete_prefix.as_str(),
                );
                self.autocomplete_provider = Some(provider);
                self.state.lines = result.lines;
                self.state.cursor_line = result.cursor_line;
                set_cursor_col(&mut self.state, result.cursor_col, &mut self.preferred_visual_col);
                self.cancel_autocomplete(false);
                self.notify_change();
            },
            None => {
                self.autocomplete_provider = Some(provider);
            },
        }
    }

    /// Browse the history (`direction` -1 older, +1 newer): the editor shows
    /// the entry, or is cleared when browsing ends; at either end, or with
    /// no history, nothing but the kill sequence changes.
    fn navigate_history(&mut self, direction: i32)
        requires
            old(self).inv(),
        ensures
            final(self).inv(),
            navigated(old(self)@, final(self)@, old(self).pending(), final(self).pending(), direction),
    {
        self.last_action = None;
        match self.history.navigate(direction) {
            Ok(Some(text)) => {
                self.undo_stack.clear();
                set_text_internal(&mut self.state, text.as_str());
                proof {
                    self::editing::lemma_set_text_ok(old(self).state, self.state, text@);
                }
                self.notify_change();
            },
            Ok(None) => {
                self.undo_stack.clear();
                set_text_internal(&mut self.state, "");
                proof {
                    reveal_strlit("");
                    self::editing::lemma_set_text_ok(old(self).state, self.state, ""@);
                }
                self.notify_change();
            },
            Err(()) => {},
        }
    }

    /// Replace the text, ending history browsing and clearing undo.
    pub fn set_text(&mut self, text: &str)
        requires
            old(self).inv(),
        ensures
            final(self).inv(),
            cursor_ok(final(self)@.state),
            after_set_text_internal(old(self)@.state, final(self)@.state, text@),
            final(self)@ == (EditorView {
                state: final(self)@.state,
                history: HistoryView { index: None, ..old(self)@.history },
                last: None,
                preferred_col: None,
                undo: Seq::empty(),
                ..old(self)@
            }),
            final(self).pending() == (EditorEvents { changed: true, ..old(self).pending() }),
    {
        self.history.reset();
        self.last_action = None;
        self.preferred_visual_col = None;
        self.undo_stack.clear();
        set_text_internal(&mut self.state, text);
        proof {
            self::editing::lemma_set_text_ok(old(self).state, self.state, text@);
        }
        self.notify_change();
    }

    /// Insert `text` at the cursor (undoable).
    pub fn insert_text(&mut self, text: &str)
        requires
            old(self).inv(),
            cursor_ok(old(self)@.state),
        ensures
            final(self).inv(),
            cursor_ok(final(self)@.state),
            text_inserted(old(self)@, final(self)@, old(self).pending(), final(self).pending(), text@),
    {
        self.history.reset();
        self.last_action = None;
        self.record_undo_state();
        let ghost s0 = self.state;
        insert_text_at_cursor(&mut self.state, text);
        proof {
            self::editing::lemma_insert_text_ok(s0, self.state, text@);
            assert(self@.undo =~= old(self)@.undo.push(self@.undo.last()));
        }
        self.notify_change();
    }

    /// Insert the most recent kill at the cursor.
    fn yank_from_kill_ring(&mut self)
        requires
            old(self).inv(),
            cursor_ok(old(self)@.state),
        ensures
            final(self).inv(),
            cursor_ok(final(self)@.state),
            yank_done(old(self)@, final(self)@, old(self).pending(), final(self).pending()),
    {
        let text = match self.kill_ring.peek() {
            Some(t) => String::from_str(t),
            None => return,
        };
        let ghost s0 = self.state;
        insert_text_at_cursor(&mut self.state, text.as_str());
        proof {
            self::editing::lemma_insert_text_ok(s0, self.state, text@);
        }
        self.last_action = Some(EditAction::Yank);
        self.notify_change();
    }

    /// Right after a yank: replace the yanked text with the next older
    /// kill. When the text before the cursor is not the yanked text, only
    /// the undo snapshot is taken.
    fn yank_pop(&mut self)
        requires
            old(self).inv(),
            cursor_ok(old(self)@.state),
        ensures
            final(self).inv(),
            cursor_ok(final(self)@.state),
            yank_pop_done(old(self)@, final(self)@, old(self).pending(), final(self).pending()),
    {
        if !matches!(self.last_action, Some(EditAction::Yank)) || self.kill_ring.len() <= 1 {
            return;
        }
        self.history.reset();
        self.record_undo_state();
        let yanked = match self.kill_ring.peek() {
            Some(t) => String::from_str(t),
            None => String::new(),
        };
        let ghost s0 = self.state;
        if !delete_yanked_text(&mut self.state, yanked.as_str()) {
            return;
        }
        let ghost s1 = self.state;
        proof {
            self::editing::lemma_delete_yanked_ok(s0, s1, yanked@, true);
        }
        self.kill_ring.rotate();
        let text = match self.kill_ring.peek() {
            Some(t) => String::from_str(t),
            None => String::new(),
        };
        insert_text_at_cursor(&mut self.state, text.as_str());
        proof {
            self::editing::lemma_insert_text_ok(s1, self.state, text@);
            assert(after_delete_yanked_text(old(self)@.state, s1, old(self)@.ring.last(), true));
            assert(after_insert_text_at_cursor(s1, self.state, rotated(old(self)@.ring).last()));
        }
        self.last_action = Some(EditAction::Yank);
        self.notify_change();
    }

    /// Undo: go back to the most recent snapshot.
    fn apply_undo(&mut self)
        requires
            old(self).inv(),
        ensures
            final(self).inv(),
            undo_applied(old(self)@, final(self)@, old(self).pending(), final(self).pending()),
    {
        let n = self.undo_stack.len();
        if n == 0 {
            return;
        }
        let ghost u = self.undo_stack@;
        let snapshot = self.undo_stack.pop().unwrap();
        proof {
            assert(snapshot == u[n - 1]);
            assert(self.undo_stack@ =~= u.drop_last());
        }
        self.history.reset();
        self.last_action = None;
        self.preferred_visual_col = None;
        self.state = snapshot;
        self.notify_change();
        if self.autocomplete_state.is_some() {
            self.update_autocomplete();
        } else {
            self.try_retrigger_autocomplete();
        }
    }

    /// Whether the text before the cursor, trimmed, is empty or `/`.
    fn is_at_start_of_message(&self) -> (r: bool)
        requires
            cursor_ok(self.state),
        ensures
            r == at_message_start(self.state),
    {
        let before = self.before_text();
        let trimmed = crate::strs::trim_string(before.as_str());
        let v = crate::strs::chars_of(trimmed.as_str());
        proof {
            if v@.len() == 1 && v@[0] == '/' {
                assert(v@ =~= seq!['/']);
            }
        }
        v.len() == 0 || (v.len() == 1 && v[0] == '/')
    }

    /// Whether typing `ch` (just inserted) should ask for suggestions: `/`
    /// at the start of the message, `@` at the start or after white space,
    /// or a word character, `.`, `-`, `_` or `/` within a slash command or
    /// a file reference.
    fn typing_triggers(&self, ch: &str) -> (r: bool)
        requires
            cursor_ok(self.state),
        ensures
            r == typing_trigger(self.state, ch@),
    {
        let cv = crate::strs::chars_of(ch);
        proof {
            if cv@.len() == 1 {
                assert(cv@ =~= seq![cv@[0]]);
            }
        }
        if cv.len() == 1 && cv[0] == '/' && self.is_at_start_of_message() {
            return true;
        }
        if cv.len() == 1 && cv[0] == '@' {
            let before = self.before_text();
            let b = before.as_str().as_bytes();
            let len = b.len();
            return len == 1 || (len >= 2 && (b[len - 2] == 0x20 || b[len - 2] == 0x09));
        }
        let single_word = cv.len() == 1 && crate::strs::byte_length(ch) == 1 && (('a' <= cv[0] && cv[0] <= 'z')
            || ('A' <= cv[0] && cv[0] <= 'Z') || ('0' <= cv[0] && cv[0] <= '9'));
        let special = cv.len() == 1 && (cv[0] == '.' || cv[0] == '-' || cv[0] == '_' || cv[0] == '/');
        if single_word || special {
            let before = self.before_text();
            let trimmed = crate::strs::trim_start_string(before.as_str());
            if Self::starts_with_slash(trimmed.as_str()) {
                return true;
            }
            return Self::at_reference(before.as_str(), true);
        }
        false
    }

    /// Type `ch` (a character or grapheme) at the cursor: undoable, ends
    /// history browsing and any kill sequence, and asks for suggestions as
    /// typing does.
    fn insert_character_internal(&mut self, ch: &str)
        requires
            old(self).inv(),
            cursor_ok(old(self)@.state),
        ensures
            final(self).inv(),
            cursor_ok(final(self)@.state),
            char_typed(old(self)@, final(self)@, old(self).pending(), final(self).pending(), ch@),
    {
        self.history.reset();
        self.last_action = None;
        self.record_undo_state();
        let ghost s0 = self.state;
        insert_character(&mut self.state, ch);
        proof {
            self::editing::lemma_insert_character_ok(s0, self.state, ch@);
            assert(self@.undo =~= old(self)@.undo.push(self@.undo.last()));
        }
        self.notify_change();
        if self.autocomplete_state.is_none() {
            if self.typing_triggers(ch) {
                self.try_trigger_autocomplete();
            }
        } else {
            self.update_autocomplete();
        }
    }

    /// Paste `pasted`: cleaned, a path spaced from a word before it; a
    /// paste of more than ten lines or a thousand bytes is inserted as a
    /// marker and kept aside; a single line is typed grapheme by grapheme;
    /// more lines are inserted at once.
    fn handle_paste(&mut self, pasted: &str)
        requires
            old(self).inv(),
            cursor_ok(old(self)@.state),
            old(self)@.paste_counter < u64::MAX,
        ensures
            final(self).inv(),
            cursor_ok(final(self)@.state),
            paste_done(old(self)@, final(self)@, old(self).pending(), final(self).pending(), pasted@),
    {
        self.history.reset();
        self.last_action = None;
        self.record_undo_state();
        let clean = clean_paste_text(pasted);
        let cv = crate::strs::chars_of(clean.as_str());
        let mut text = clean;
        if cv.len() > 0 && (cv[0] == '/' || cv[0] == '~' || cv[0] == '.') && self.state.cursor_col > 0 {
            let before = self.state.text_before_cursor();
            let bv = crate::strs::chars_of(before.as_str());
            if bv.len() > 0 {
                let last = bv[bv.len() - 1];
                if crate::strs::is_alphanumeric_char(last) || last == '_' {
                    let mut spaced = String::from_str(" ");
                    spaced.append(text.as_str());
                    proof {
                        reveal_strlit(" ");
                    }
                    text = spaced;
                }
            }
        }
        proof {
            broadcast use encode_utf8_decode_utf8;

            assert(text@ == paste_text(old(self)@.state, pasted@));
        }
        let line_count: u128 = count_newlines(text.as_str()) as u128 + 1;
        let total_chars = crate::strs::byte_length(text.as_str());
        if line_count > 10 || total_chars > 1000 {
            self.paste_counter = self.paste_counter + 1;
            let paste_id = self.paste_counter;
            let marker = make_paste_marker(paste_id, line_count, total_chars);
            self.pastes.push((paste_id, text));
            let ghost s0 = self.state;
            insert_text_at_cursor(&mut self.state, marker.as_str());
            proof {
                self::editing::lemma_insert_text_ok(s0, self.state, marker@);
                assert(self@.pastes =~= old(self)@.pastes.push((paste_id, text@)));
            }
            self.notify_change();
            return;
        }
        if line_count == 1 {
            let gs = grapheme_strings(text.as_str());
            let ghost v = string_views(gs@);
            let ghost s0 = self.state;
            let ghost u0 = self@.undo.len();
            let mut i: usize = 0;
            proof {
                assert(v.take(0) =~= Seq::<Seq<char>>::empty());
                assert(encode_utf8(concat_all(v.take(0))) =~= Seq::<u8>::empty());
                self::state::lemma_line_bytes_update(s0.lines@, s0.cursor_line as int, s0.lines@[s0.cursor_line as int]);
                assert(splice(lb(s0.lines@[s0.cursor_line as int]), s0.cursor_col as int, s0.cursor_col as int, Seq::empty())
                    =~= lb(s0.lines@[s0.cursor_line as int]));
                assert(line_bytes(s0.lines@).update(s0.cursor_line as int, lb(s0.lines@[s0.cursor_line as int])) =~= line_bytes(s0.lines@));
            }
            while i < gs.len()
                invariant
                    self.inv(),
                    cursor_ok(self@.state),
                    cursor_ok(s0),
                    v == string_views(gs@),
                    v == graphemes(text@),
                    concat_all(v) == text@,
                    i <= gs@.len(),
                    inserted_on_line(s0, self@.state, concat_all(v.take(i as int))),
                    self@.undo.len() == u0 + i,
                    u0 == old(self)@.undo.len() + 1,
                    paste_frame(old(self)@, self@),
                    self@.pastes == old(self)@.pastes,
                    self@.paste_counter == old(self)@.paste_counter,
                    !old(self)@.has_provider ==> self@.autocomplete == old(self)@.autocomplete
                        && self@.list == old(self)@.list && self@.prefix == old(self)@.prefix,
                    i > 0 ==> self.pending().changed,
                    self.pending().alt_enter == old(self).pending().alt_enter,
                    old(self)@.has_provider == self@.has_provider,
                decreases gs@.len() - i,
            {
                let ghost before = self@.state;
                self.insert_character_internal(gs[i].as_str());
                proof {
                    let w = concat_all(v.take(i as int));
                    assert(v.take(i + 1).drop_last() =~= v.take(i as int));
                    assert(v.take(i + 1).last() == v[i as int]);
                    crate::strs::lemma_encode_concat(w, v[i as int]);
                    assert(before.cursor_col == s0.cursor_col + encode_utf8(w).len());
                    let line0 = lb(s0.lines@[s0.cursor_line as int]);
                    let c0 = s0.cursor_col as int;
                    assert(line_bytes(before.lines@)[s0.cursor_line as int] == splice(line0, c0, c0, encode_utf8(w)));
                    self::editing::lemma_lb_index_pub(before.lines@, s0.cursor_line as int);
                    assert(splice(splice(line0, c0, c0, encode_utf8(w)), c0 + encode_utf8(w).len(), c0 + encode_utf8(w).len(), encode_utf8(v[i as int]))
                        =~= splice(line0, c0, c0, encode_utf8(w + v[i as int])));
                    assert(line_bytes(self@.state.lines@) =~= line_bytes(s0.lines@).update(
                        s0.cursor_line as int,
                        splice(line0, c0, c0, encode_utf8(concat_all(v.take(i + 1)))),
                    ));
                }
                i = i + 1;
            }
            proof {
                assert(v.take(gs@.len() as int) =~= v);
            }
            return;
        }
        let ghost s0 = self.state;
        insert_text_at_cursor(&mut self.state, text.as_str());
        proof {
            self::editing::lemma_insert_text_ok(s0, self.state, text@);
        }
        self.notify_change();
    }

    /// The text with each paste marker replaced by the pasted text.
    pub fn get_expanded_text(&self) -> (r: String)
        requires
            expansion_ends(text_of(self@.state), self@.pastes),
        ensures
            r@ == expansion(text_of(self@.state), self@.pastes),
    {
        let text = self.state.text();
        expand_pastes(text, &self.pastes)
    }

    /// Submit: the text (paste markers expanded) unless it is blank; the
    /// editor is emptied in any case.
    fn submit_value(&mut self) -> (r: Option<String>)
        requires
            old(self).inv(),
            expansion_ends(text_of(old(self)@.state), old(self)@.pastes),
        ensures
            final(self).inv(),
            cursor_ok(final(self)@.state),
            submitted(old(self)@, final(self)@, old(self).pending(), final(self).pending(), r),
    {
        self.last_action = None;
        let result = self.state.text();
        let trimmed = trim_string(result.as_str());
        let blank = trimmed.unicode_len() == 0;
        let expanded = expand_pastes(result, &self.pastes);
        self.state = EditorState::default();
        self.pastes = Vec::new();
        self.paste_counter = 0;
        self.history.reset();
        self.scroll_offset = 0;
        self.undo_stack.clear();
        proof {
            assert(self@.pastes =~= Seq::<(u64, Seq<char>)>::empty());
            assert(lb(self.state.lines@[0]) =~= Seq::<u8>::empty());
            crate::strs::lemma_boundary_ends(self.state.lines@[0]@);
        }
        self.notify_change();
        if blank {
            None
        } else {
            Some(expanded)
        }
    }

    /// A key while the autocomplete list is showing: Escape dismisses it,
    /// Up and Down move its selection, Tab applies the selection, and Enter
    /// applies it (a slash command is then submitted at once).
    fn key_list(&mut self, k: EditorKey, data: &str, Ghost(vls): Ghost<Seq<VisualLine>>) -> (r: InputResult)
        requires
            old(self).inv(),
            cursor_ok(old(self)@.state),
            old(self)@.autocomplete is Some,
            old(self)@.list is Some,
            k == EditorKey::ListCancel || k == EditorKey::ListMove || k == EditorKey::ListTab
                || k == EditorKey::ListEnter,
            pastes_expand(old(self)@.pastes),
        ensures
            final(self).inv(),
            cursor_ok(final(self)@.state),
            key_done(k, old(self)@, final(self)@, old(self).pending(), final(self).pending(), r, data@, vls),
    {
        reveal(key_done);
        match k {
            EditorKey::ListCancel => {
                self.cancel_autocomplete(true);
                InputResult::Consumed
            },
            EditorKey::ListMove => {
                let ghost o = self@;
                match self.autocomplete_list.take() {
                    Some(mut list) => {
                        let ghost l1 = list;
                        let lr = list.handle_input(data);
                        self.autocomplete_list = Some(list);
                        proof {
                            assert(o.list == Some(l1));
                            assert(self@.list == Some(list));
                            assert(list_key_done(o.list.unwrap(), self@.list.unwrap(), lr, data@));
                        }
                    },
                    None => {},
                }
                self.events.autocomplete_updated = true;
                InputResult::Consumed
            },
            EditorKey::ListTab => {
                self.apply_autocomplete_selection();
                InputResult::Consumed
            },
            _ => {
                if !Self::starts_with_slash(self.autocomplete_prefix.as_str()) {
                    self.apply_autocomplete_selection();
                    return InputResult::Consumed;
                }
                let ghost o = self@;
                let ghost eo = self.pending();
                let before = self.state.text_before_cursor();
                proof {
                    broadcast use encode_utf8_decode_utf8;

                    assert(before@ == before_cursor(o.state));
                }
                if crate::strs::str_eq(before.as_str(), self.autocomplete_prefix.as_str()) {
                    self.apply_autocomplete_selection();
                } else {
                    self.cancel_autocomplete(false);
                }
                let ghost mid = self@;
                let ghost em = self.pending();
                proof {
                    assert(expansion_ends(text_of(mid.state), mid.pastes));
                }
                if self.disable_submit {
                    proof {
                        assert(slash_enter(o, mid, self@, eo, em, self.pending(), InputResult::Consumed));
                    }
                    return InputResult::Consumed;
                }
                let sub = self.submit_value();
                let r = match sub {
                    Some(t) => InputResult::Submit(t),
                    None => InputResult::Consumed,
                };
                proof {
                    assert(submitted(mid, self@, em, self.pending(), sub));
                    assert(slash_enter(o, mid, self@, eo, em, self.pending(), r));
                }
                r
            },
        }
    }

    /// A kill key: delete to the end or start of the line, or the word
    /// before or after the cursor, into the kill ring (undoable).
    fn key_kill(&mut self, k: EditorKey, data: &str, Ghost(vls): Ghost<Seq<VisualLine>>)
        requires
            old(self).inv(),
            cursor_ok(old(self)@.state),
            k == EditorKey::KillToEnd || k == EditorKey::KillToStart || k == EditorKey::KillWordBackward
                || k == EditorKey::KillWordForward,
        ensures
            final(self).inv(),
            cursor_ok(final(self)@.state),
            key_done(
                k,
                old(self)@,
                final(self)@,
                old(self).pending(),
                final(self).pending(),
                InputResult::Consumed,
                data@,
                vls,
            ),
    {
        reveal(key_done);
        self.history.reset();
        self.record_undo_state();
        let ghost s0 = self.state;
        match k {
            EditorKey::KillToEnd => {
                let deleted = delete_to_end_of_line(&mut self.state);
                proof {
                    self::editing::lemma_delete_to_end_ok(s0, self.state, deleted@);
                }
                self.record_kill(deleted.as_str(), false);
                proof {
                    assert(self@.undo =~= old(self)@.undo.push(self@.undo.last()));
                    assert(kill_done(old(self)@, self@, deleted@, false));
                }
            },
            EditorKey::KillToStart => {
                let deleted = delete_to_start_of_line(&mut self.state);
                proof {
                    self::editing::lemma_delete_to_start_ok(s0, self.state, deleted@);
                }
                self.record_kill(deleted.as_str(), true);
                proof {
                    assert(self@.undo =~= old(self)@.undo.push(self@.undo.last()));
                    assert(kill_done(old(self)@, self@, deleted@, true));
                }
            },
            EditorKey::KillWordBackward => {
                let deleted = delete_word_backwards(&mut self.state);
                proof {
                    self::editing::lemma_delete_word_backwards_ok(s0, self.state, deleted@);
                }
                self.record_kill(deleted.as_str(), true);
                proof {
                    assert(self@.undo =~= old(self)@.undo.push(self@.undo.last()));
                    assert(kill_done(old(self)@, self@, deleted@, true));
                }
            },
            _ => {
                let deleted = delete_word_forwards(&mut self.state);
                proof {
                    self::editing::lemma_delete_word_forwards_ok(s0, self.state, deleted@);
                }
                self.record_kill(deleted.as_str(), false);
                proof {
                    assert(self@.undo =~= old(self)@.undo.push(self@.undo.last()));
                    assert(kill_done(old(self)@, self@, deleted@, false));
                }
            },
        }
        self.notify_change();
    }

    /// A cursor key: line start and end, word left and right, and the
    /// arrows (Up and Down browse the history from the first or last visual
    /// line, or when the editor is empty).
    fn key_move(&mut self, k: EditorKey, data: &str, visual_lines: &[VisualLine]) -> (r: InputResult)
        requires
            old(self).inv(),
            cursor_ok(old(self)@.state),
            visual_map_ok(old(self)@.state.lines@, visual_lines@),
            horizontal_ok(
                old(self)@.state.lines@,
                visual_lines@,
                old(self)@.state.cursor_line as int,
                old(self)@.state.cursor_col as int,
                old(self)@.preferred_col,
                0,
                1,
            ),
            k == EditorKey::LineStart || k == EditorKey::LineEnd || k == EditorKey::WordLeft
                || k == EditorKey::WordRight || k == EditorKey::Up || k == EditorKey::Down
                || k == EditorKey::Right || k == EditorKey::Left,
        ensures
            final(self).inv(),
            k != EditorKey::Up && k != EditorKey::Down ==> cursor_ok(final(self)@.state),
            key_done(k, old(self)@, final(self)@, old(self).pending(), final(self).pending(), r, data@, visual_lines@),
    {
        reveal(key_done);
        let ghost s0 = self.state;
        match k {
            EditorKey::LineStart => {
                self.last_action = None;
                move_to_line_start(&mut self.state, &mut self.preferred_visual_col);
                proof {
                    self::motion::lemma_line_start_ok(s0, self.state, old(self)@.preferred_col, self@.preferred_col);
                }
            },
            EditorKey::LineEnd => {
                self.last_action = None;
                move_to_line_end(&mut self.state, &mut self.preferred_visual_col);
                proof {
                    self::motion::lemma_line_end_ok(s0, self.state, old(self)@.preferred_col, self@.preferred_col);
                }
            },
            EditorKey::WordLeft => {
                self.last_action = None;
                move_word_backwards(&mut self.state, &mut self.preferred_visual_col);
                proof {
                    self::motion::lemma_move_word_backwards_ok(s0, self.state, old(self)@.preferred_col, self@.preferred_col);
                }
            },
            EditorKey::WordRight => {
                self.last_action = None;
                move_word_forwards(&mut self.state, &mut self.preferred_visual_col);
                proof {
                    self::motion::lemma_move_word_forwards_ok(s0, self.state, old(self)@.preferred_col, self@.preferred_col);
                }
            },
            EditorKey::Up => {
                let first = is_on_first_visual_line(&self.state, visual_lines);
                if self.state.is_empty() || (self.history.is_browsing() && first) {
                    self.navigate_history(-1);
                } else if first {
                    move_to_line_start(&mut self.state, &mut self.preferred_visual_col);
                } else {
                    move_cursor(&mut self.state, -1, 0, visual_lines, &mut self.preferred_visual_col);
                }
            },
            EditorKey::Down => {
                let last = is_on_last_visual_line(&self.state, visual_lines);
                if self.history.is_browsing() && last {
                    self.navigate_history(1);
                } else if last {
                    move_to_line_end(&mut self.state, &mut self.preferred_visual_col);
                } else {
                    move_cursor(&mut self.state, 1, 0, visual_lines, &mut self.preferred_visual_col);
                }
            },
            EditorKey::Right => {
                move_cursor(&mut self.state, 0, 1, visual_lines, &mut self.preferred_visual_col);
            },
            _ => {
                move_cursor(&mut self.state, 0, -1, visual_lines, &mut self.preferred_visual_col);
            },
        }
        InputResult::Consumed
    }

    /// A line key: Alt+Enter and the new-line keys break the line (Alt+Enter
    /// is reported instead when the owner asks for it), Enter submits, and
    /// Backspace and Delete remove a grapheme or join lines.
    fn key_text(&mut self, k: EditorKey, data: &str, Ghost(vls): Ghost<Seq<VisualLine>>) -> (r: InputResult)
        requires
            old(self).inv(),
            cursor_ok(old(self)@.state),
            expansion_ends(text_of(old(self)@.state), old(self)@.pastes),
            k == EditorKey::AltEnter || k == EditorKey::NewLine || k == EditorKey::Enter
                || k == EditorKey::Backspace || k == EditorKey::Delete,
        ensures
            final(self).inv(),
            cursor_ok(final(self)@.state),
            key_done(k, old(self)@, final(self)@, old(self).pending(), final(self).pending(), r, data@, vls),
    {
        reveal(key_done);
        match k {
            EditorKey::Enter => {
                if self.disable_submit {
                    return InputResult::Consumed;
                }
                let sub = self.submit_value();
                match sub {
                    Some(t) => InputResult::Submit(t),
                    None => InputResult::Consumed,
                }
            },
            EditorKey::Backspace => {
                self.history.reset();
                self.last_action = None;
                self.record_undo_state();
                let ghost s0 = self.state;
                let changed = handle_backspace(&mut self.state);
                proof {
                    self::editing::lemma_backspace_ok(s0, self.state, changed);
                }
                if changed {
                    self.preferred_visual_col = None;
                    self.notify_change();
                    if self.autocomplete_state.is_some() {
                        self.update_autocomplete();
                    } else {
                        self.try_retrigger_autocomplete();
                    }
                }
                proof {
                    assert(after_handle_backspace(old(self)@.state, self@.state, changed));
                }
                InputResult::Consumed
            },
            EditorKey::Delete => {
                self.history.reset();
                self.last_action = None;
                self.record_undo_state();
                let ghost s0 = self.state;
                let changed = handle_forward_delete(&mut self.state);
                proof {
                    self::editing::lemma_forward_delete_ok(s0, self.state, changed);
                }
                if changed {
                    self.notify_change();
                    if self.autocomplete_state.is_some() {
                        self.update_autocomplete();
                    } else {
                        self.try_retrigger_autocomplete();
                    }
                }
                proof {
                    assert(after_handle_forward_delete(old(self)@.state, self@.state, changed));
                }
                InputResult::Consumed
            },
            _ => {
                if k == EditorKey::AltEnter && self.report_alt_enter {
                    let text = self.state.text();
                    self.events.alt_enter = Some(text);
                    return InputResult::Consumed;
                }
                self.history.reset();
                self.last_action = None;
                self.record_undo_state();
                let ghost s0 = self.state;
                add_new_line(&mut self.state);
                proof {
                    self::editing::lemma_add_new_line_ok(s0, self.state);
                }
                let ghost s1 = self.state;
                set_cursor_col(&mut self.state, 0, &mut self.preferred_visual_col);
                proof {
                    assert(after_add_new_line(s0, self.state));
                    self::editing::lemma_add_new_line_ok(s0, self.state);
                    assert(self@.undo =~= old(self)@.undo.push(self@.undo.last()));
                }
                self.notify_change();
                InputResult::Consumed
            },
        }
    }

    /// The other keys: Ctrl+C is left to the owner, undo, Tab completion,
    /// yank and yank-pop, a space, the jump keys, and typed text.
    fn key_other(&mut self, k: EditorKey, data: &str, Ghost(vls): Ghost<Seq<VisualLine>>) -> (r: InputResult)
        requires
            old(self).inv(),
            cursor_ok(old(self)@.state),
            k == EditorKey::CtrlC || k == EditorKey::Undo || k == EditorKey::Tab || k == EditorKey::Yank
                || k == EditorKey::YankPop || k == EditorKey::ShiftSpace || k == EditorKey::JumpForward
                || k == EditorKey::JumpBackward || k == EditorKey::Kitty || k == EditorKey::Char
                || k == EditorKey::Other,
            k == EditorKey::Kitty ==> kitty_printable(data@) is Some,
        ensures
            final(self).inv(),
            cursor_ok(final(self)@.state),
            key_done(k, old(self)@, final(self)@, old(self).pending(), final(self).pending(), r, data@, vls),
    {
        reveal(key_done);
        match k {
            EditorKey::CtrlC => InputResult::Ignored,
            EditorKey::Other => InputResult::Ignored,
            EditorKey::Undo => {
                self.apply_undo();
                InputResult::Consumed
            },
            EditorKey::Tab => {
                self.handle_tab_completion();
                InputResult::Consumed
            },
            EditorKey::Yank => {
                self.yank_from_kill_ring();
                InputResult::Consumed
            },
            EditorKey::YankPop => {
                self.yank_pop();
                InputResult::Consumed
            },
            EditorKey::ShiftSpace => {
                proof {
                    reveal_strlit(" ");
                    assert(" "@ =~= seq![' ']);
                }
                self.insert_character_internal(" ");
                InputResult::Consumed
            },
            EditorKey::JumpForward => {
                self.jump_mode = Some(JumpMode::Forward);
                InputResult::Consumed
            },
            EditorKey::JumpBackward => {
                self.jump_mode = Some(JumpMode::Backward);
                InputResult::Consumed
            },
            EditorKey::Kitty => {
                match decode_kitty_printable(data) {
                    Some(text) => {
                        self.insert_text(text.as_str());
                    },
                    None => {},
                }
                InputResult::Consumed
            },
            _ => {
                self.insert_character_internal(data);
                InputResult::Consumed
            },
        }
    }

    /// Handle one key outside a jump and a bracketed paste, by the default
    /// bindings. `visual_lines` is the layout's map of visual lines.
    fn handle_key(&mut self, data: &str, visual_lines: &[VisualLine]) -> (r: InputResult)
        requires
            old(self).inv(),
            cursor_ok(old(self)@.state),
            visual_map_ok(old(self)@.state.lines@, visual_lines@),
            horizontal_ok(
                old(self)@.state.lines@,
                visual_lines@,
                old(self)@.state.cursor_line as int,
                old(self)@.state.cursor_col as int,
                old(self)@.preferred_col,
                0,
                1,
            ),
            expansion_ends(text_of(old(self)@.state), old(self)@.pastes),
            old(self)@.autocomplete is Some && old(self)@.list is Some ==> pastes_expand(old(self)@.pastes),
        ensures
            final(self).inv(),
            ({
                let k = editor_key(
                    data@,
                    old(self)@.autocomplete is Some && old(self)@.list is Some,
                    old(self)@.autocomplete is Some,
                );
                &&& key_done(k, old(self)@, final(self)@, old(self).pending(), final(self).pending(), r, data@, visual_lines@)
                &&& k != EditorKey::Up && k != EditorKey::Down ==> cursor_ok(final(self)@.state)
            }),
    {
        let k = self.classify(data);
        let ghost vls = visual_lines@;
        match k {
            EditorKey::ListCancel | EditorKey::ListMove | EditorKey::ListTab | EditorKey::ListEnter => {
                self.key_list(k, data, Ghost(vls))
            },
            EditorKey::KillToEnd | EditorKey::KillToStart | EditorKey::KillWordBackward
            | EditorKey::KillWordForward => {
                self.key_kill(k, data, Ghost(vls));
                InputResult::Consumed
            },
            EditorKey::LineStart | EditorKey::LineEnd | EditorKey::WordLeft | EditorKey::WordRight
            | EditorKey::Up | EditorKey::Down | EditorKey::Right | EditorKey::Left => {
                self.key_move(k, data, visual_lines)
            },
            EditorKey::AltEnter | EditorKey::NewLine | EditorKey::Enter | EditorKey::Backspace
            | EditorKey::Delete => {
                self.key_text(k, data, Ghost(vls))
            },
            _ => self.key_other(k, data, Ghost(vls)),
        }
    }

    /// The bracketed-paste part of input handling: whether `data` went to
    /// a paste (started in it or under way).
    fn paste_phase(&mut self, data: &str) -> (handled: bool)
        requires
            old(self).inv(),
            cursor_ok(old(self)@.state),
            old(self)@.paste_counter < u64::MAX,
        ensures
            final(self).inv(),
            cursor_ok(final(self)@.state),
            match paste_buffered(old(self)@, data@) {
                None => !handled && final(self)@ == old(self)@ && final(self).pending() == old(self).pending(),
                Some(buf) => handled && match seq_find(buf, paste_end(), 0) {
                    None => final(self)@ == (EditorView { in_paste: true, paste: buf, ..old(self)@ })
                        && final(self).pending() == old(self).pending(),
                    Some(e) => paste_finished(old(self)@, final(self)@, old(self).pending(), final(self).pending(), buf, e),
                },
            },
    {
        let dv = crate::strs::chars_of(data);
        let start = crate::strs::chars_of("\x1b[200~");
        let end = crate::strs::chars_of("\x1b[201~");
        proof {
            reveal_strlit("\x1b[200~");
            reveal_strlit("\x1b[201~");
            assert(start@ =~= paste_start());
            assert(end@ =~= paste_end());
        }
        let starts = crate::strs::contains_chars(&dv, &start);
        if starts {
            self.is_in_paste = true;
            self.paste_buffer = crate::strs::remove_all(&dv, &start);
        }
        if !self.is_in_paste {
            return false;
        }
        if !starts {
            self.paste_buffer.append(data);
        }
        let bv = crate::strs::chars_of(self.paste_buffer.as_str());
        let bl = bv.len();
        match crate::strs::find_chars(&bv, &end) {
            Some(e) => {
                proof {
                    crate::strs::lemma_seq_find_some(bv@, end@, 0);
                    assert(end@.len() == 6);
                }
                let content = crate::strs::string_from_range(bv.as_slice(), 0, e);
                let rest = crate::strs::string_from_range(bv.as_slice(), e + 6, bl);
                proof {
                    assert(content@ =~= bv@.take(e as int));
                    assert(rest@ =~= bv@.skip(e + 6));
                }
                let ghost mid = self@;
                let ghost em = self.pending();
                self.handle_paste(content.as_str());
                let ghost p = self@;
                self.is_in_paste = false;
                self.paste_buffer = String::new();
                self.pending_input = rest;
                proof {
                    assert(paste_done(mid, p, em, self.pending(), content@));
                }
                return true;
            },
            None => {
                return true;
            },
        }
    }

    /// Handle raw terminal input. `visual_lines` is the layout's map of
    /// visual lines for the current text and width. Input that follows the
    /// end of a bracketed paste is left pending (see `take_pending_input`),
    /// to be handled with a map of the text after the paste.
    pub fn handle_input(&mut self, data: &str, visual_lines: &[VisualLine]) -> (r: InputResult)
        requires
            old(self).inv(),
            cursor_ok(old(self)@.state),
            visual_map_ok(old(self)@.state.lines@, visual_lines@),
            horizontal_ok(
                old(self)@.state.lines@,
                visual_lines@,
                old(self)@.state.cursor_line as int,
                old(self)@.state.cursor_col as int,
                old(self)@.preferred_col,
                0,
                1,
            ),
            expansion_ends(text_of(old(self)@.state), old(self)@.pastes),
            old(self)@.autocomplete is Some && old(self)@.list is Some ==> pastes_expand(old(self)@.pastes),
            old(self)@.paste_counter < u64::MAX,
            old(self)@.jump matches Some(j) ==> jump_ok(old(self)@.state, j == JumpMode::Forward),
            old(self)@.jump == Some(JumpMode::Forward) ==> old(self)@.state.cursor_col < usize::MAX,
        ensures
            final(self).inv(),
            input_done(old(self)@, final(self)@, old(self).pending(), final(self).pending(), r, data@, visual_lines@),
            cursor_ok(final(self)@.state) || ({
                let k = editor_key(
                    data@,
                    old(self)@.autocomplete is Some && old(self)@.list is Some,
                    old(self)@.autocomplete is Some,
                );
                k == EditorKey::Up || k == EditorKey::Down
            }),
    {
        let b = data.as_bytes();
        match self.jump_mode {
            Some(jump_dir) => {
                proof {
                    assert(self.keys.keys_of(EditorAction::JumpForward) == default_keys(EditorAction::JumpForward));
                    assert(self.keys.keys_of(EditorAction::JumpBackward) == default_keys(EditorAction::JumpBackward));
                }
                if self.keys.matches(b, EditorAction::JumpForward, false) || self.keys.matches(
                    b,
                    EditorAction::JumpBackward,
                    false,
                ) {
                    self.jump_mode = None;
                    return InputResult::Consumed;
                }
                if b.len() > 0 && b[0] >= 32 {
                    let forward = matches!(jump_dir, JumpMode::Forward);
                    self.jump_mode = None;
                    let ghost s0 = self.state;
                    let ghost p0 = self.preferred_visual_col;
                    jump_to_char(&mut self.state, data, forward, &mut self.preferred_visual_col);
                    proof {
                        if data@.len() == 0 {
                            assert(encode_utf8(data@) =~= Seq::<u8>::empty());
                        }
                        self::motion::law_jump_keeps_cursor_on_boundary(s0, self.state, p0, self.preferred_visual_col, data@, forward);
                    }
                    return InputResult::Consumed;
                }
                self.jump_mode = None;
            },
            None => {},
        }
        if self.paste_phase(data) {
            return InputResult::Consumed;
        }
        self.handle_key(data, visual_lines)
    }

    /// Take the input left pending after a bracketed paste (`None` when
    /// there is none).
    pub fn take_pending_input(&mut self) -> (r: Option<String>)
        requires
            old(self).inv(),
        ensures
            final(self).inv(),
            final(self).pending() == old(self).pending(),
            final(self)@ == (EditorView { pending_input: Seq::empty(), ..old(self)@ }),
            match r {
                Some(t) => t@ == old(self)@.pending_input && t@.len() > 0,
                None => old(self)@.pending_input.len() == 0,
            },
    {
        let mut t = String::new();
        std::mem::swap(&mut t, &mut self.pending_input);
        if t.unicode_len() == 0 {
            None
        } else {
            Some(t)
        }
    }

    /// Whether the conditions of `handle_input` that the editor's own state
    /// decides hold: the cursor is on a character boundary, another paste
    /// can be numbered, and a pending jump can search from the cursor.
    pub fn ready_for_input(&self) -> (r: bool)
        requires
            self.inv(),
        ensures
            r == (cursor_ok(self@.state) && self@.paste_counter < u64::MAX && (self@.jump matches Some(j)
                ==> jump_ok(self@.state, j == JumpMode::Forward)) && (self@.jump == Some(JumpMode::Forward)
                ==> self@.state.cursor_col < usize::MAX)),
    {
        if !self.cursor_on_boundary() || self.paste_counter == u64::MAX {
            return false;
        }
        let line = self.state.current_line();
        let len = crate::strs::byte_length(line);
        let col = self.state.cursor_col;
        match self.jump_mode {
            Some(JumpMode::Forward) => {
                if col == usize::MAX {
                    return false;
                }
                col + 1 > len || line.is_char_boundary(col + 1)
            },
            Some(JumpMode::Backward) => true,
            None => true,
        }
    }

    /// Whether the cursor is on a character boundary of its line (a move up
    /// or down through a wrapped line can leave it inside a character).
    pub fn cursor_on_boundary(&self) -> (r: bool)
        requires
            self.inv(),
        ensures
            r == cursor_ok(self@.state),
    {
        let line = self.state.current_line();
        self.state.cursor_col <= crate::strs::byte_length(line) && line.is_char_boundary(self.state.cursor_col)
    }

    /// Horizontal padding: the set override, else the theme's, else 2.
    pub fn get_editor_padding_x(&self) -> (r: usize)
        ensures
            r == match self@.padding_x_override {
                Some(p) => p,
                None => match self.theme_padding() {
                    Some(p) => p,
                    None => 2,
                },
            },
    {
        match self.padding_x_override {
            Some(p) => p,
            None => match self.theme_padding_x {
                Some(p) => p,
                None => 2,
            },
        }
    }

    /// The theme's horizontal padding.
    pub closed spec fn theme_padding(&self) -> Option<usize> {
        self.theme_padding_x
    }

    /// Rows available for text: all `content_lines` without a height limit,
    /// else the limit less the two border rows (at least one).
    pub fn get_visible_content_height(&self, content_lines: usize) -> (r: usize)
        ensures
            r == match self@.max_height {
                None => content_lines as int,
                Some(h) => if h >= 3 {
                    h - 2
                } else {
                    1
                },
            },
    {
        match self.max_height {
            None => content_lines,
            Some(h) => if h >= 3 {
                h - 2
            } else {
                1
            },
        }
    }

    /// The first row shown: unchanged while the cursor's visual line is in
    /// view, else scrolled just far enough to show it; never past the last
    /// full screen, and 0 when everything fits.
    pub fn update_scroll_offset(
        &mut self,
        visual_lines: &[VisualLine],
        layout_line_count: usize,
        visible_height: usize,
    )
        requires
            old(self).inv(),
        ensures
            final(self).inv(),
            final(self).pending() == old(self).pending(),
            final(self)@ == (EditorView { scroll_offset: final(self)@.scroll_offset, ..old(self)@ }),
            final(self)@.scroll_offset == scrolled_to(
                old(self)@.scroll_offset,
                cursor_visual_line_from(
                    visual_lines@,
                    0,
                    old(self)@.state.cursor_line as int,
                    old(self)@.state.cursor_col as int,
                ),
                layout_line_count as int,
                visible_height as int,
            ),
    {
        if layout_line_count <= visible_height {
            self.scroll_offset = 0;
            return;
        }
        let cursor_line = find_current_visual_line(&self.state, visual_lines);
        let _n = visual_lines.len();
        proof {
            self::motion::lemma_cursor_visual_line_range(
                visual_lines@,
                0,
                self.state.cursor_line as int,
                self.state.cursor_col as int,
            );
            assert(cursor_line < visual_lines@.len() || cursor_line == 0);
        }
        if cursor_line < self.scroll_offset {
            self.scroll_offset = cursor_line;
        } else if cursor_line - self.scroll_offset >= visible_height {
            self.scroll_offset = cursor_line + 1 - visible_height;
        }
        let max_offset = layout_line_count - visible_height;
        if self.scroll_offset > max_offset {
            self.scroll_offset = max_offset;
        }
    }

    /// The first row shown.
    pub fn get_scroll_offset(&self) -> (r: usize)
        ensures
            r == self@.scroll_offset,
    {
        self.scroll_offset
    }

    /// What `data` does, by the default bindings.
    fn classify(&self, data: &str) -> (k: EditorKey)
        requires
            self.inv(),
        ensures
            k == editor_key(
                data@,
                self@.autocomplete is Some && self@.list is Some,
                self@.autocomplete is Some,
            ),
            k == EditorKey::ListCancel || k == EditorKey::ListMove || k == EditorKey::ListTab
                || k == EditorKey::ListEnter ==> self@.autocomplete is Some && self@.list is Some,
            k == EditorKey::Kitty ==> kitty_printable(data@) is Some,
    {
        let b = data.as_bytes();
        proof {
            assert(self.keys.keys_of(EditorAction::Undo) == default_keys(EditorAction::Undo));
            assert(self.keys.keys_of(EditorAction::SelectUp) == default_keys(EditorAction::SelectUp));
            assert(self.keys.keys_of(EditorAction::SelectDown) == default_keys(EditorAction::SelectDown));
            assert(self.keys.keys_of(EditorAction::Tab) == default_keys(EditorAction::Tab));
            assert(self.keys.keys_of(EditorAction::DeleteToLineEnd) == default_keys(EditorAction::DeleteToLineEnd));
            assert(self.keys.keys_of(EditorAction::DeleteToLineStart) == default_keys(EditorAction::DeleteToLineStart));
            assert(self.keys.keys_of(EditorAction::DeleteWordBackward) == default_keys(EditorAction::DeleteWordBackward));
            assert(self.keys.keys_of(EditorAction::Yank) == default_keys(EditorAction::Yank));
            assert(self.keys.keys_of(EditorAction::YankPop) == default_keys(EditorAction::YankPop));
            assert(self.keys.keys_of(EditorAction::CursorLineStart) == default_keys(EditorAction::CursorLineStart));
            assert(self.keys.keys_of(EditorAction::CursorLineEnd) == default_keys(EditorAction::CursorLineEnd));
            assert(self.keys.keys_of(EditorAction::DeleteCharBackward) == default_keys(EditorAction::DeleteCharBackward));
            assert(self.keys.keys_of(EditorAction::DeleteCharForward) == default_keys(EditorAction::DeleteCharForward));
            assert(self.keys.keys_of(EditorAction::CursorWordLeft) == default_keys(EditorAction::CursorWordLeft));
            assert(self.keys.keys_of(EditorAction::CursorWordRight) == default_keys(EditorAction::CursorWordRight));
            assert(self.keys.keys_of(EditorAction::CursorUp) == default_keys(EditorAction::CursorUp));
            assert(self.keys.keys_of(EditorAction::CursorDown) == default_keys(EditorAction::CursorDown));
            assert(self.keys.keys_of(EditorAction::CursorRight) == default_keys(EditorAction::CursorRight));
            assert(self.keys.keys_of(EditorAction::CursorLeft) == default_keys(EditorAction::CursorLeft));
            assert(self.keys.keys_of(EditorAction::JumpForward) == default_keys(EditorAction::JumpForward));
            assert(self.keys.keys_of(EditorAction::JumpBackward) == default_keys(EditorAction::JumpBackward));
        }
        let newline = crate::strs::str_eq(data, "\n");
        proof {
            reveal_strlit("\n");
            assert("\n"@ =~= seq!['\n']);
        }
        let enter = key_is(b, "enter", false) || key_is(b, "return", false) || newline;
        let showing = self.autocomplete_state.is_some() && self.autocomplete_list.is_some();
        let active = self.autocomplete_state.is_some();
        if key_is(b, "ctrl+c", false) {
            return EditorKey::CtrlC;
        }
        if self.keys.matches(b, EditorAction::Undo, false) {
            return EditorKey::Undo;
        }
        if showing {
            if key_is(b, "escape", false) || key_is(b, "esc", false) {
                return EditorKey::ListCancel;
            }
            if self.keys.matches(b, EditorAction::SelectUp, false) || self.keys.matches(b, EditorAction::SelectDown, false) {
                return EditorKey::ListMove;
            }
            if self.keys.matches(b, EditorAction::Tab, false) {
                return EditorKey::ListTab;
            }
            if enter {
                return EditorKey::ListEnter;
            }
        }
        if self.keys.matches(b, EditorAction::Tab, false) && !active {
            return EditorKey::Tab;
        }
        if self.keys.matches(b, EditorAction::DeleteToLineEnd, false) {
            return EditorKey::KillToEnd;
        }
        if self.keys.matches(b, EditorAction::DeleteToLineStart, false) {
            return EditorKey::KillToStart;
        }
        if self.keys.matches(b, EditorAction::DeleteWordBackward, false) {
            return EditorKey::KillWordBackward;
        }
        if key_is(b, "alt+d", false) || key_is(b, "alt+delete", false) {
            return EditorKey::KillWordForward;
        }
        if self.keys.matches(b, EditorAction::Yank, false) {
            return EditorKey::Yank;
        }
        if self.keys.matches(b, EditorAction::YankPop, false) {
            return EditorKey::YankPop;
        }
        if self.keys.matches(b, EditorAction::CursorLineStart, false) {
            return EditorKey::LineStart;
        }
        if self.keys.matches(b, EditorAction::CursorLineEnd, false) {
            return EditorKey::LineEnd;
        }
        if key_is(b, "alt+enter", false) {
            return EditorKey::AltEnter;
        }
        if is_new_line_key(data) {
            return EditorKey::NewLine;
        }
        if enter {
            return EditorKey::Enter;
        }
        if self.keys.matches(b, EditorAction::DeleteCharBackward, false) || key_is(b, "shift+backspace", false) {
            return EditorKey::Backspace;
        }
        if self.keys.matches(b, EditorAction::DeleteCharForward, false) || key_is(b, "shift+delete", false) {
            return EditorKey::Delete;
        }
        if self.keys.matches(b, EditorAction::CursorWordLeft, false) {
            return EditorKey::WordLeft;
        }
        if self.keys.matches(b, EditorAction::CursorWordRight, false) {
            return EditorKey::WordRight;
        }
        if self.keys.matches(b, EditorAction::CursorUp, false) {
            return EditorKey::Up;
        }
        if self.keys.matches(b, EditorAction::CursorDown, false) {
            return EditorKey::Down;
        }
        if self.keys.matches(b, EditorAction::CursorRight, false) {
            return EditorKey::Right;
        }
        if self.keys.matches(b, EditorAction::CursorLeft, false) {
            return EditorKey::Left;
        }
        if key_is(b, "shift+space", false) {
            return EditorKey::ShiftSpace;
        }
        if self.keys.matches(b, EditorAction::JumpForward, false) {
            return EditorKey::JumpForward;
        }
        if self.keys.matches(b, EditorAction::JumpBackward, false) {
            return EditorKey::JumpBackward;
        }
        match decode_kitty_printable(data) {
            Some(_) => {
                return EditorKey::Kitty;
            },
            None => {},
        }
        if b.len() > 0 && b[0] >= 32 {
            return EditorKey::Char;
        }
        EditorKey::Other
    }

    pub fn set_focused(&mut self, focused: bool)
        requires
            old(self).inv(),
        ensures
            final(self).inv(),
            final(self)@ == (EditorView { focused, ..old(self)@ }),
    {
        self.focused = focused;
    }

    pub fn is_focused(&self) -> (r: bool)
        ensures
            r == self@.focused,
    {
        self.focused
    }
}

} // verus!
