//! Editor keybindings: which keys each editor action answers to, with
//! Emacs-style defaults that a configuration can override.

use vstd::prelude::*;
use vstd::string::*;
use vstd::utf8::*;

use crate::capabilities::{lower_seq, lowercase_chars};
use crate::keys::match_key::{matches_key, matches_key_spec};
use crate::keys::parse::{parse_key, parse_key_spec};
use crate::strs::{byte_length, chars_of, str_eq, string_from_chars, string_views};

verus! {

/// Editor actions that keys can be bound to.
#[derive(Debug, Clone, Copy, PartialEq, Eq, Hash, Structural)]
pub enum EditorAction {
    // Cursor movement
    CursorUp,
    CursorDown,
    CursorLeft,
    CursorRight,
    CursorWordLeft,
    CursorWordRight,
    CursorLineStart,
    CursorLineEnd,
    JumpForward,
    JumpBackward,
    // Deletion
    DeleteCharBackward,
    DeleteCharForward,
    DeleteWordBackward,
    DeleteWordForward,
    DeleteToLineStart,
    DeleteToLineEnd,
    // Text input
    NewLine,
    Submit,
    Tab,
    // Selection/autocomplete
    SelectUp,
    SelectDown,
    SelectPageUp,
    SelectPageDown,
    SelectConfirm,
    SelectCancel,
    // Clipboard
    Copy,
    // Kill ring / undo
    Undo,
    Yank,
    YankPop,
}

/// Position of an action in the binding table.
pub open spec fn action_slot(a: EditorAction) -> int {
    match a {
        EditorAction::CursorUp => 0,
        EditorAction::CursorDown => 1,
        EditorAction::CursorLeft => 2,
        EditorAction::CursorRight => 3,
        EditorAction::CursorWordLeft => 4,
        EditorAction::CursorWordRight => 5,
        EditorAction::CursorLineStart => 6,
        EditorAction::CursorLineEnd => 7,
        EditorAction::JumpForward => 8,
        EditorAction::JumpBackward => 9,
        EditorAction::DeleteCharBackward => 10,
        EditorAction::DeleteCharForward => 11,
        EditorAction::DeleteWordBackward => 12,
        EditorAction::DeleteWordForward => 13,
        EditorAction::DeleteToLineStart => 14,
        EditorAction::DeleteToLineEnd => 15,
        EditorAction::NewLine => 16,
        EditorAction::Submit => 17,
        EditorAction::Tab => 18,
        EditorAction::SelectUp => 19,
        EditorAction::SelectDown => 20,
        EditorAction::SelectPageUp => 21,
        EditorAction::SelectPageDown => 22,
        EditorAction::SelectConfirm => 23,
        EditorAction::SelectCancel => 24,
        EditorAction::Copy => 25,
        EditorAction::Undo => 26,
        EditorAction::Yank => 27,
        EditorAction::YankPop => 28,
    }
}

fn action_index(a: EditorAction) -> (i: usize)
    ensures
        i == action_slot(a),
{
    match a {
        EditorAction::CursorUp => 0,
        EditorAction::CursorDown => 1,
        EditorAction::CursorLeft => 2,
        EditorAction::CursorRight => 3,
        EditorAction::CursorWordLeft => 4,
        EditorAction::CursorWordRight => 5,
        EditorAction::CursorLineStart => 6,
        EditorAction::CursorLineEnd => 7,
        EditorAction::JumpForward => 8,
        EditorAction::JumpBackward => 9,
        EditorAction::DeleteCharBackward => 10,
        EditorAction::DeleteCharForward => 11,
        EditorAction::DeleteWordBackward => 12,
        EditorAction::DeleteWordForward => 13,
        EditorAction::DeleteToLineStart => 14,
        EditorAction::DeleteToLineEnd => 15,
        EditorAction::NewLine => 16,
        EditorAction::Submit => 17,
        EditorAction::Tab => 18,
        EditorAction::SelectUp => 19,
        EditorAction::SelectDown => 20,
        EditorAction::SelectPageUp => 21,
        EditorAction::SelectPageDown => 22,
        EditorAction::SelectConfirm => 23,
        EditorAction::SelectCancel => 24,
        EditorAction::Copy => 25,
        EditorAction::Undo => 26,
        EditorAction::Yank => 27,
        EditorAction::YankPop => 28,
    }
}

/// The keys bound to each action by default (Emacs-style).
pub open spec fn default_keys(a: EditorAction) -> Seq<Seq<char>> {
    match a {
        EditorAction::CursorUp => seq!["up"@],
        EditorAction::CursorDown => seq!["down"@],
        EditorAction::CursorLeft => seq!["left"@, "ctrl+b"@],
        EditorAction::CursorRight => seq!["right"@, "ctrl+f"@],
        EditorAction::CursorWordLeft => seq!["alt+left"@, "ctrl+left"@, "alt+b"@],
        EditorAction::CursorWordRight => seq!["alt+right"@, "ctrl+right"@, "alt+f"@],
        EditorAction::CursorLineStart => seq!["home"@, "ctrl+a"@],
        EditorAction::CursorLineEnd => seq!["end"@, "ctrl+e"@],
        EditorAction::JumpForward => seq!["ctrl+]"@],
        EditorAction::JumpBackward => seq!["ctrl+alt+]"@],
        EditorAction::DeleteCharBackward => seq!["backspace"@],
        EditorAction::DeleteCharForward => seq!["delete"@, "ctrl+d"@],
        EditorAction::DeleteWordBackward => seq!["ctrl+w"@, "alt+backspace"@, "ctrl+backspace"@],
        EditorAction::DeleteWordForward => seq!["alt+delete"@, "alt+d"@],
        EditorAction::DeleteToLineStart => seq!["ctrl+u"@],
        EditorAction::DeleteToLineEnd => seq!["ctrl+k"@],
        EditorAction::NewLine => seq!["shift+enter"@],
        EditorAction::Submit => seq!["enter"@],
        EditorAction::Tab => seq!["tab"@],
        EditorAction::SelectUp => seq!["up"@],
        EditorAction::SelectDown => seq!["down"@],
        EditorAction::SelectPageUp => seq!["pageup"@],
        EditorAction::SelectPageDown => seq!["pagedown"@],
        EditorAction::SelectConfirm => seq!["enter"@],
        EditorAction::SelectCancel => seq!["escape"@, "ctrl+c"@],
        EditorAction::Copy => seq!["ctrl+c"@],
        EditorAction::Undo => seq!["ctrl+-"@],
        EditorAction::Yank => seq!["ctrl+y"@],
        EditorAction::YankPop => seq!["alt+y"@],
    }
}

fn default_key_strings(a: EditorAction) -> (v: Vec<String>)
    ensures
        string_views(v@) == default_keys(a),
{
    let v = match a {
        EditorAction::CursorUp => vec![String::from_str("up")],
        EditorAction::CursorDown => vec![String::from_str("down")],
        EditorAction::CursorLeft => vec![String::from_str("left"), String::from_str("ctrl+b")],
        EditorAction::CursorRight => vec![String::from_str("right"), String::from_str("ctrl+f")],
        EditorAction::CursorWordLeft => vec![String::from_str("alt+left"), String::from_str("ctrl+left"), String::from_str("alt+b")],
        EditorAction::CursorWordRight => vec![String::from_str("alt+right"), String::from_str("ctrl+right"), String::from_str("alt+f")],
        EditorAction::CursorLineStart => vec![String::from_str("home"), String::from_str("ctrl+a")],
        EditorAction::CursorLineEnd => vec![String::from_str("end"), String::from_str("ctrl+e")],
        EditorAction::JumpForward => vec![String::from_str("ctrl+]")],
        EditorAction::JumpBackward => vec![String::from_str("ctrl+alt+]")],
        EditorAction::DeleteCharBackward => vec![String::from_str("backspace")],
        EditorAction::DeleteCharForward => vec![String::from_str("delete"), String::from_str("ctrl+d")],
        EditorAction::DeleteWordBackward => vec![String::from_str("ctrl+w"), String::from_str("alt+backspace"), String::from_str("ctrl+backspace")],
        EditorAction::DeleteWordForward => vec![String::from_str("alt+delete"), String::from_str("alt+d")],
        EditorAction::DeleteToLineStart => vec![String::from_str("ctrl+u")],
        EditorAction::DeleteToLineEnd => vec![String::from_str("ctrl+k")],
        EditorAction::NewLine => vec![String::from_str("shift+enter")],
        EditorAction::Submit => vec![String::from_str("enter")],
        EditorAction::Tab => vec![String::from_str("tab")],
        EditorAction::SelectUp => vec![String::from_str("up")],
        EditorAction::SelectDown => vec![String::from_str("down")],
        EditorAction::SelectPageUp => vec![String::from_str("pageup")],
        EditorAction::SelectPageDown => vec![String::from_str("pagedown")],
        EditorAction::SelectConfirm => vec![String::from_str("enter")],
        EditorAction::SelectCancel => vec![String::from_str("escape"), String::from_str("ctrl+c")],
        EditorAction::Copy => vec![String::from_str("ctrl+c")],
        EditorAction::Undo => vec![String::from_str("ctrl+-")],
        EditorAction::Yank => vec![String::from_str("ctrl+y")],
        EditorAction::YankPop => vec![String::from_str("alt+y")],
    };
    assert(string_views(v@) =~= default_keys(a));
    v
}

/// All editor actions, in declaration order.
pub open spec fn all_actions_spec() -> Seq<EditorAction> {
    seq![EditorAction::CursorUp, EditorAction::CursorDown, EditorAction::CursorLeft, EditorAction::CursorRight, EditorAction::CursorWordLeft, EditorAction::CursorWordRight, EditorAction::CursorLineStart, EditorAction::CursorLineEnd, EditorAction::JumpForward, EditorAction::JumpBackward, EditorAction::DeleteCharBackward, EditorAction::DeleteCharForward, EditorAction::DeleteWordBackward, EditorAction::DeleteWordForward, EditorAction::DeleteToLineStart, EditorAction::DeleteToLineEnd, EditorAction::NewLine, EditorAction::Submit, EditorAction::Tab, EditorAction::SelectUp, EditorAction::SelectDown, EditorAction::SelectPageUp, EditorAction::SelectPageDown, EditorAction::SelectConfirm, EditorAction::SelectCancel, EditorAction::Copy, EditorAction::Undo, EditorAction::Yank, EditorAction::YankPop]
}


/// All editor actions, in declaration order.
pub fn all_actions() -> (r: Vec<EditorAction>)
    ensures
        r@ == all_actions_spec(),
{
    let r = vec![
        EditorAction::CursorUp,
        EditorAction::CursorDown,
        EditorAction::CursorLeft,
        EditorAction::CursorRight,
        EditorAction::CursorWordLeft,
        EditorAction::CursorWordRight,
        EditorAction::CursorLineStart,
        EditorAction::CursorLineEnd,
        EditorAction::JumpForward,
        EditorAction::JumpBackward,
        EditorAction::DeleteCharBackward,
        EditorAction::DeleteCharForward,
        EditorAction::DeleteWordBackward,
        EditorAction::DeleteWordForward,
        EditorAction::DeleteToLineStart,
        EditorAction::DeleteToLineEnd,
        EditorAction::NewLine,
        EditorAction::Submit,
        EditorAction::Tab,
        EditorAction::SelectUp,
        EditorAction::SelectDown,
        EditorAction::SelectPageUp,
        EditorAction::SelectPageDown,
        EditorAction::SelectConfirm,
        EditorAction::SelectCancel,
        EditorAction::Copy,
        EditorAction::Undo,
        EditorAction::Yank,
        EditorAction::YankPop,
    ];
    assert(r@ =~= all_actions_spec());
    r
}


/// Characters that Shift produces, matched without the `shift+` prefix.
pub open spec fn shifted_symbol(c: char) -> bool {
    c == '!' || c == '@' || c == '#' || c == '$' || c == '%' || c == '^' || c == '&' || c == '*'
        || c == '(' || c == ')' || c == '_' || c == '+' || c == '{' || c == '}' || c == '|' || c
        == ':' || c == '<' || c == '>' || c == '?' || c == '~'
}

fn is_shifted_symbol(c: char) -> (r: bool)
    ensures
        r == shifted_symbol(c),
{
    c == '!' || c == '@' || c == '#' || c == '$' || c == '%' || c == '^' || c == '&' || c == '*'
        || c == '(' || c == ')' || c == '_' || c == '+' || c == '{' || c == '}' || c == '|' || c
        == ':' || c == '<' || c == '>' || c == '?' || c == '~'
}

/// Whether input `data` is the key `key`.
#[verifier::opaque]
pub open spec fn answers(data: Seq<u8>, key: Seq<char>, kitty_active: bool) -> bool {
    matches_key_spec(data, key, kitty_active)
}

/// The key a shifted symbol stands for: `X` when `data` is `shift+X` with `X`
/// a single-byte shifted symbol.
pub open spec fn shifted_key(data: Seq<u8>, kitty_active: bool) -> Option<Seq<char>> {
    match parse_key_spec(data, kitty_active) {
        Some(p) => if p.len() >= 6 && p.take(6) == "shift+"@ && encode_utf8(p.skip(6)).len() == 1
            && shifted_symbol(p[6]) {
            Some(p.skip(6))
        } else {
            None
        },
        None => None,
    }
}

/// Whether input `data` answers to the keys `keys`: it matches one of them,
/// or it is a shifted symbol (`shift+X`, `X` one byte) and `X` itself is
/// among them.
pub open spec fn binding_matches(keys: Seq<Seq<char>>, data: Seq<u8>, kitty_active: bool) -> bool {
    (exists|i: int| 0 <= i < keys.len() && answers(data, #[trigger] keys[i], kitty_active))
        || match shifted_key(data, kitty_active) {
        Some(k) => keys.contains(k),
        None => false,
    }
}

/// Whether `data` answers to `a` under the default bindings.
pub open spec fn bound(a: EditorAction, data: Seq<char>) -> bool {
    binding_matches(default_keys(a), encode_utf8(data), false)
}

/// The keys that the last override of `a` gives it, if any.
pub open spec fn last_override(overrides: Seq<(EditorAction, Vec<String>)>, a: EditorAction) -> Option<Seq<Seq<char>>>
    decreases overrides.len(),
{
    if overrides.len() == 0 {
        None
    } else if overrides.last().0 == a {
        Some(string_views(overrides.last().1@))
    } else {
        last_override(overrides.drop_last(), a)
    }
}

/// The keys of `a` once `overrides` (lowered to ASCII lower case) apply on
/// top of the defaults.
pub open spec fn configured_keys(overrides: Seq<(EditorAction, Vec<String>)>, a: EditorAction) -> Seq<Seq<char>> {
    match last_override(overrides, a) {
        Some(ks) => ks.map_values(|k: Seq<char>| lower_seq(k)),
        None => default_keys(a),
    }
}

/// `keys` lowered to ASCII lower case.
fn lowered_keys(keys: &Vec<String>) -> (r: Vec<String>)
    ensures
        string_views(r@) == string_views(keys@).map_values(|k: Seq<char>| lower_seq(k)),
{
    let mut r: Vec<String> = Vec::new();
    let mut i: usize = 0;
    while i < keys.len()
        invariant
            i <= keys@.len(),
            r@.len() == i,
            forall|j: int| 0 <= j < i ==> (#[trigger] r@[j])@ == lower_seq(keys@[j]@),
        decreases keys@.len() - i,
    {
        let lowered = lowercase_chars(keys[i].as_str());
        r.push(string_from_chars(lowered.as_slice()));
        i = i + 1;
    }
    assert(string_views(r@) =~= string_views(keys@).map_values(|k: Seq<char>| lower_seq(k)));
    r
}

/// The bindings of an editor: for each action, the keys it answers to.
pub struct EditorKeybindingsManager {
    action_to_keys: Vec<Vec<String>>,
}

/// The default binding table.
fn default_table() -> (t: Vec<Vec<String>>)
    ensures
        t@.len() == 29,
        forall|a: EditorAction| #[trigger] string_views(t@[action_slot(a)]@) == default_keys(a),
{
    let acts = all_actions();
    let mut t: Vec<Vec<String>> = Vec::new();
    let mut i: usize = 0;
    while i < 29
        invariant
            acts@ == all_actions_spec(),
            i <= 29,
            t@.len() == i,
            forall|j: int| 0 <= j < i ==> string_views(#[trigger] t@[j]@) == default_keys(all_actions_spec()[j]),
        decreases 29 - i,
    {
        t.push(default_key_strings(acts[i]));
        i = i + 1;
    }
    assert forall|a: EditorAction| #[trigger] string_views(t@[action_slot(a)]@) == default_keys(a) by {
        assert(all_actions_spec()[action_slot(a)] == a);
    }
    t
}

impl EditorKeybindingsManager {
    #[verifier::type_invariant]
    spec fn sized(self) -> bool {
        self.action_to_keys@.len() == 29
    }

    /// The keys bound to action `a`.
    pub closed spec fn keys_of(self, a: EditorAction) -> Seq<Seq<char>> {
        string_views(self.action_to_keys@[action_slot(a)]@)
    }

    /// The default bindings.
    pub fn new() -> (m: Self)
        ensures
            forall|a: EditorAction| #[trigger] m.keys_of(a) == default_keys(a),
    {
        EditorKeybindingsManager { action_to_keys: default_table() }
    }

    fn apply_overrides(table: &mut Vec<Vec<String>>, overrides: &Vec<(EditorAction, Vec<String>)>)
        requires
            old(table)@.len() == 29,
            forall|a: EditorAction| #[trigger] string_views(old(table)@[action_slot(a)]@) == default_keys(a),
        ensures
            final(table)@.len() == 29,
            forall|a: EditorAction| #[trigger] string_views(final(table)@[action_slot(a)]@) == configured_keys(overrides@, a),
    {
        let mut i: usize = 0;
        while i < overrides.len()
            invariant
                i <= overrides@.len(),
                table@.len() == 29,
                forall|a: EditorAction| #[trigger] string_views(table@[action_slot(a)]@) == configured_keys(overrides@.take(i as int), a),
            decreases overrides@.len() - i,
        {
            let action = overrides[i].0;
            let keys = lowered_keys(&overrides[i].1);
            let slot = action_index(action);
            let ghost old_table = table@;
            table.set(slot, keys);
            proof {
                assert(overrides@.take(i + 1).drop_last() =~= overrides@.take(i as int));
                assert(overrides@.take(i + 1).last() == overrides@[i as int]);
                assert forall|a: EditorAction| #[trigger] string_views(table@[action_slot(a)]@) == configured_keys(overrides@.take(i + 1), a) by {
                    assert(string_views(old_table[action_slot(a)]@) == configured_keys(overrides@.take(i as int), a));
                    if a != action {
                        assert(action_slot(a) != action_slot(action));
                    }
                }
            }
            i = i + 1;
        }
        proof {
            assert(overrides@.take(overrides@.len() as int) =~= overrides@);
        }
    }

    /// The default bindings with `overrides` (keys lowered to ASCII lower
    /// case) replacing those of the actions they name; where an action
    /// appears twice the later keys count.
    pub fn with_overrides(overrides: &Vec<(EditorAction, Vec<String>)>) -> (m: Self)
        ensures
            forall|a: EditorAction| #[trigger] m.keys_of(a) == configured_keys(overrides@, a),
    {
        let mut table = default_table();
        Self::apply_overrides(&mut table, overrides);
        EditorKeybindingsManager { action_to_keys: table }
    }

    /// Reset to the defaults, then apply `overrides` as `with_overrides` does.
    pub fn set_config(&mut self, overrides: &Vec<(EditorAction, Vec<String>)>)
        ensures
            forall|a: EditorAction| #[trigger] final(self).keys_of(a) == configured_keys(overrides@, a),
    {
        let mut table = default_table();
        Self::apply_overrides(&mut table, overrides);
        self.action_to_keys = table;
    }

    /// The keys bound to `action`.
    pub fn get_keys(&self, action: EditorAction) -> (r: &[String])
        ensures
            string_views(r@) == self.keys_of(action),
    {
        proof {
            use_type_invariant(self);
        }
        self.action_to_keys[action_index(action)].as_slice()
    }

    /// Whether raw input `data` answers to `action`.
    pub fn matches(&self, data: &[u8], action: EditorAction, kitty_active: bool) -> (r: bool)
        ensures
            r == binding_matches(self.keys_of(action), data@, kitty_active),
    {
        proof {
            use_type_invariant(self);
        }
        let keys = &self.action_to_keys[action_index(action)];
        if any_key_matches(keys, data, kitty_active) {
            return true;
        }
        match shifted_symbol_key(data, kitty_active) {
            Some(rest) => contains_key(keys, rest.as_str()),
            None => false,
        }
    }
}

/// Whether `data` is one of `keys`.
fn any_key_matches(keys: &Vec<String>, data: &[u8], kitty_active: bool) -> (r: bool)
    ensures
        r == exists|i: int| 0 <= i < keys@.len() && answers(data@, #[trigger] string_views(keys@)[i], kitty_active),
{
    let ghost ks = string_views(keys@);
    let mut i: usize = 0;
    while i < keys.len()
        invariant
            ks == string_views(keys@),
            i <= keys@.len(),
            forall|j: int| 0 <= j < i ==> !answers(data@, #[trigger] ks[j], kitty_active),
        decreases keys@.len() - i,
    {
        let hit = matches_key(data, keys[i].as_str(), kitty_active);
        proof {
            reveal(answers);
        }
        if hit {
            assert(answers(data@, ks[i as int], kitty_active));
            return true;
        }
        i = i + 1;
    }
    false
}

/// Whether `pv` starts with `shift+`.
fn starts_with_shift(pv: &Vec<char>) -> (r: bool)
    ensures
        r == (pv@.len() >= 6 && pv@.take(6) == "shift+"@),
{
    let prefix = chars_of("shift+");
    proof {
        reveal_strlit("shift+");
    }
    if pv.len() < 6 {
        return false;
    }
    let mut k: usize = 0;
    while k < 6
        invariant
            prefix@ == "shift+"@,
            pv@.len() >= 6,
            prefix@.len() == 6,
            k <= 6,
            forall|j: int| 0 <= j < k ==> pv@[j] == prefix@[j],
        decreases 6 - k,
    {
        if pv[k] != prefix[k] {
            assert(pv@.take(6)[k as int] != "shift+"@[k as int]);
            return false;
        }
        k = k + 1;
    }
    assert(pv@.take(6) =~= "shift+"@);
    true
}

/// The key a shifted symbol in `data` stands for, if it is one.
fn shifted_symbol_key(data: &[u8], kitty_active: bool) -> (r: Option<String>)
    ensures
        match r {
            Some(k) => shifted_key(data@, kitty_active) == Some(k@),
            None => shifted_key(data@, kitty_active) is None,
        },
{
    let parsed = match parse_key(data, kitty_active) {
        Some(p) => p,
        None => {
            return None;
        },
    };
    let pv = chars_of(parsed.as_str());
    if !starts_with_shift(&pv) {
        return None;
    }
    let rest = crate::strs::string_from_range(pv.as_slice(), 6, pv.len());
    assert(rest@ =~= parsed@.skip(6));
    if byte_length(rest.as_str()) != 1 {
        return None;
    }
    if !is_shifted_symbol(pv[6]) {
        return None;
    }
    Some(rest)
}

/// Whether `key` is among `keys`.
fn contains_key(keys: &Vec<String>, key: &str) -> (r: bool)
    ensures
        r == string_views(keys@).contains(key@),
{
    let ghost ks = string_views(keys@);
    let mut j: usize = 0;
    while j < keys.len()
        invariant
            ks == string_views(keys@),
            j <= keys@.len(),
            forall|m: int| 0 <= m < j ==> ks[m] != key@,
        decreases keys@.len() - j,
    {
        if str_eq(keys[j].as_str(), key) {
            assert(ks[j as int] == key@);
            return true;
        }
        j = j + 1;
    }
    false
}

impl Default for EditorKeybindingsManager {
    fn default() -> (m: Self)
        ensures
            forall|a: EditorAction| #[trigger] m.keys_of(a) == default_keys(a),
    {
        Self::new()
    }
}

} // verus!
