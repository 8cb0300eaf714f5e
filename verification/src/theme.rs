//! Theme: colors kept as ANSI escape sequences, and styling that wraps
//! text in them. Each style closes with its own attribute reset (not a full
//! reset), so foreground, background and bold compose.

use vstd::prelude::*;
use vstd::string::*;
use vstd::utf8::*;

use crate::components::filterable_select::FilterableSelectTheme;
use crate::components::select_list::SelectListTheme;
use crate::components::tab_bar::TabBarTheme;
use crate::strs::{chars_of, dec_digits, dec_string, seq_find, contains_chars, str_eq};
use crate::style::Style;
use crate::symbols::SymbolTheme;

verus! {

/// Foreground color keys.
#[derive(Debug, Clone, Copy, PartialEq, Eq, Hash, Structural)]
pub enum ThemeColor {
    // Core UI
    Accent,
    Border,
    BorderAccent,
    BorderMuted,
    Success,
    Error,
    Warning,
    Muted,
    Dim,
    Text,
    ThinkingText,
    // Message text
    UserMessageText,
    CustomMessageText,
    CustomMessageLabel,
    ToolTitle,
    ToolOutput,
    // Markdown
    MdHeading,
    MdLink,
    MdLinkUrl,
    MdCode,
    MdCodeBlock,
    MdCodeBlockBorder,
    MdQuote,
    MdQuoteBorder,
    MdHr,
    MdListBullet,
    // Tool diffs
    ToolDiffAdded,
    ToolDiffRemoved,
    ToolDiffContext,
    // Syntax highlighting
    SyntaxComment,
    SyntaxKeyword,
    SyntaxFunction,
    SyntaxVariable,
    SyntaxString,
    SyntaxNumber,
    SyntaxType,
    SyntaxOperator,
    SyntaxPunctuation,
    // Thinking borders
    ThinkingOff,
    ThinkingMinimal,
    ThinkingLow,
    ThinkingMedium,
    ThinkingHigh,
    ThinkingXhigh,
    // Mode borders
    BashMode,
    PythonMode,
    // Status line
    StatusLineSep,
    StatusLineModel,
    StatusLinePath,
    StatusLineGitClean,
    StatusLineGitDirty,
    StatusLineContext,
    StatusLineSpend,
    StatusLineStaged,
    StatusLineDirty,
    StatusLineUntracked,
    StatusLineOutput,
    StatusLineCost,
    StatusLineSubagents,
}

/// Background color keys.
#[derive(Debug, Clone, Copy, PartialEq, Eq, Hash, Structural)]
pub enum ThemeBg {
    SelectedBg,
    UserMessageBg,
    CustomMessageBg,
    ToolPendingBg,
    ToolSuccessBg,
    ToolErrorBg,
    StatusLineBg,
}

/// Position of a foreground color in a theme's table.
pub open spec fn fg_slot(c: ThemeColor) -> int {
    match c {
        ThemeColor::Accent => 0,
        ThemeColor::Border => 1,
        ThemeColor::BorderAccent => 2,
        ThemeColor::BorderMuted => 3,
        ThemeColor::Success => 4,
        ThemeColor::Error => 5,
        ThemeColor::Warning => 6,
        ThemeColor::Muted => 7,
        ThemeColor::Dim => 8,
        ThemeColor::Text => 9,
        ThemeColor::ThinkingText => 10,
        ThemeColor::UserMessageText => 11,
        ThemeColor::CustomMessageText => 12,
        ThemeColor::CustomMessageLabel => 13,
        ThemeColor::ToolTitle => 14,
        ThemeColor::ToolOutput => 15,
        ThemeColor::MdHeading => 16,
        ThemeColor::MdLink => 17,
        ThemeColor::MdLinkUrl => 18,
        ThemeColor::MdCode => 19,
        ThemeColor::MdCodeBlock => 20,
        ThemeColor::MdCodeBlockBorder => 21,
        ThemeColor::MdQuote => 22,
        ThemeColor::MdQuoteBorder => 23,
        ThemeColor::MdHr => 24,
        ThemeColor::MdListBullet => 25,
        ThemeColor::ToolDiffAdded => 26,
        ThemeColor::ToolDiffRemoved => 27,
        ThemeColor::ToolDiffContext => 28,
        ThemeColor::SyntaxComment => 29,
        ThemeColor::SyntaxKeyword => 30,
        ThemeColor::SyntaxFunction => 31,
        ThemeColor::SyntaxVariable => 32,
        ThemeColor::SyntaxString => 33,
        ThemeColor::SyntaxNumber => 34,
        ThemeColor::SyntaxType => 35,
        ThemeColor::SyntaxOperator => 36,
        ThemeColor::SyntaxPunctuation => 37,
        ThemeColor::ThinkingOff => 38,
        ThemeColor::ThinkingMinimal => 39,
        ThemeColor::ThinkingLow => 40,
        ThemeColor::ThinkingMedium => 41,
        ThemeColor::ThinkingHigh => 42,
        ThemeColor::ThinkingXhigh => 43,
        ThemeColor::BashMode => 44,
        ThemeColor::PythonMode => 45,
        ThemeColor::StatusLineSep => 46,
        ThemeColor::StatusLineModel => 47,
        ThemeColor::StatusLinePath => 48,
        ThemeColor::StatusLineGitClean => 49,
        ThemeColor::StatusLineGitDirty => 50,
        ThemeColor::StatusLineContext => 51,
        ThemeColor::StatusLineSpend => 52,
        ThemeColor::StatusLineStaged => 53,
        ThemeColor::StatusLineDirty => 54,
        ThemeColor::StatusLineUntracked => 55,
        ThemeColor::StatusLineOutput => 56,
        ThemeColor::StatusLineCost => 57,
        ThemeColor::StatusLineSubagents => 58,
    }
}

/// Position of a background color in a theme's table.
pub open spec fn bg_slot(c: ThemeBg) -> int {
    match c {
        ThemeBg::SelectedBg => 0,
        ThemeBg::UserMessageBg => 1,
        ThemeBg::CustomMessageBg => 2,
        ThemeBg::ToolPendingBg => 3,
        ThemeBg::ToolSuccessBg => 4,
        ThemeBg::ToolErrorBg => 5,
        ThemeBg::StatusLineBg => 6,
    }
}

fn fg_index(c: ThemeColor) -> (i: usize)
    ensures
        i == fg_slot(c),
{
    match c {
        ThemeColor::Accent => 0,
        ThemeColor::Border => 1,
        ThemeColor::BorderAccent => 2,
        ThemeColor::BorderMuted => 3,
        ThemeColor::Success => 4,
        ThemeColor::Error => 5,
        ThemeColor::Warning => 6,
        ThemeColor::Muted => 7,
        ThemeColor::Dim => 8,
        ThemeColor::Text => 9,
        ThemeColor::ThinkingText => 10,
        ThemeColor::UserMessageText => 11,
        ThemeColor::CustomMessageText => 12,
        ThemeColor::CustomMessageLabel => 13,
        ThemeColor::ToolTitle => 14,
        ThemeColor::ToolOutput => 15,
        ThemeColor::MdHeading => 16,
        ThemeColor::MdLink => 17,
        ThemeColor::MdLinkUrl => 18,
        ThemeColor::MdCode => 19,
        ThemeColor::MdCodeBlock => 20,
        ThemeColor::MdCodeBlockBorder => 21,
        ThemeColor::MdQuote => 22,
        ThemeColor::MdQuoteBorder => 23,
        ThemeColor::MdHr => 24,
        ThemeColor::MdListBullet => 25,
        ThemeColor::ToolDiffAdded => 26,
        ThemeColor::ToolDiffRemoved => 27,
        ThemeColor::ToolDiffContext => 28,
        ThemeColor::SyntaxComment => 29,
        ThemeColor::SyntaxKeyword => 30,
        ThemeColor::SyntaxFunction => 31,
        ThemeColor::SyntaxVariable => 32,
        ThemeColor::SyntaxString => 33,
        ThemeColor::SyntaxNumber => 34,
        ThemeColor::SyntaxType => 35,
        ThemeColor::SyntaxOperator => 36,
        ThemeColor::SyntaxPunctuation => 37,
        ThemeColor::ThinkingOff => 38,
        ThemeColor::ThinkingMinimal => 39,
        ThemeColor::ThinkingLow => 40,
        ThemeColor::ThinkingMedium => 41,
        ThemeColor::ThinkingHigh => 42,
        ThemeColor::ThinkingXhigh => 43,
        ThemeColor::BashMode => 44,
        ThemeColor::PythonMode => 45,
        ThemeColor::StatusLineSep => 46,
        ThemeColor::StatusLineModel => 47,
        ThemeColor::StatusLinePath => 48,
        ThemeColor::StatusLineGitClean => 49,
        ThemeColor::StatusLineGitDirty => 50,
        ThemeColor::StatusLineContext => 51,
        ThemeColor::StatusLineSpend => 52,
        ThemeColor::StatusLineStaged => 53,
        ThemeColor::StatusLineDirty => 54,
        ThemeColor::StatusLineUntracked => 55,
        ThemeColor::StatusLineOutput => 56,
        ThemeColor::StatusLineCost => 57,
        ThemeColor::StatusLineSubagents => 58,
    }
}

fn bg_index(c: ThemeBg) -> (i: usize)
    ensures
        i == bg_slot(c),
{
    match c {
        ThemeBg::SelectedBg => 0,
        ThemeBg::UserMessageBg => 1,
        ThemeBg::CustomMessageBg => 2,
        ThemeBg::ToolPendingBg => 3,
        ThemeBg::ToolSuccessBg => 4,
        ThemeBg::ToolErrorBg => 5,
        ThemeBg::StatusLineBg => 6,
    }
}

/// The dark theme's foreground colors.
pub open spec fn dark_fg_table() -> Seq<(ThemeColor, ColorValue)> {
    seq![
        (ThemeColor::Accent, ColorValue::Rgb(254, 188, 56)),
        (ThemeColor::Border, ColorValue::Rgb(23, 143, 185)),
        (ThemeColor::BorderAccent, ColorValue::Rgb(0, 136, 250)),
        (ThemeColor::BorderMuted, ColorValue::Rgb(61, 66, 74)),
        (ThemeColor::Success, ColorValue::Rgb(137, 210, 129)),
        (ThemeColor::Error, ColorValue::Rgb(252, 58, 75)),
        (ThemeColor::Warning, ColorValue::Rgb(228, 192, 15)),
        (ThemeColor::Muted, ColorValue::Rgb(119, 125, 136)),
        (ThemeColor::Dim, ColorValue::Rgb(95, 102, 115)),
        (ThemeColor::ThinkingText, ColorValue::Rgb(119, 125, 136)),
        (ThemeColor::CustomMessageLabel, ColorValue::Rgb(178, 129, 214)),
        (ThemeColor::ToolOutput, ColorValue::Rgb(119, 125, 136)),
        (ThemeColor::MdHeading, ColorValue::Rgb(254, 188, 56)),
        (ThemeColor::MdLink, ColorValue::Rgb(0, 136, 250)),
        (ThemeColor::MdLinkUrl, ColorValue::Rgb(95, 102, 115)),
        (ThemeColor::MdCode, ColorValue::Rgb(229, 193, 255)),
        (ThemeColor::MdCodeBlock, ColorValue::Rgb(156, 220, 254)),
        (ThemeColor::MdCodeBlockBorder, ColorValue::Rgb(61, 66, 74)),
        (ThemeColor::MdQuote, ColorValue::Rgb(119, 125, 136)),
        (ThemeColor::MdQuoteBorder, ColorValue::Rgb(61, 66, 74)),
        (ThemeColor::MdHr, ColorValue::Rgb(61, 66, 74)),
        (ThemeColor::MdListBullet, ColorValue::Rgb(254, 188, 56)),
        (ThemeColor::ToolDiffAdded, ColorValue::Rgb(137, 210, 129)),
        (ThemeColor::ToolDiffRemoved, ColorValue::Rgb(252, 58, 75)),
        (ThemeColor::ToolDiffContext, ColorValue::Rgb(119, 125, 136)),
        (ThemeColor::SyntaxComment, ColorValue::Rgb(106, 153, 85)),
        (ThemeColor::SyntaxKeyword, ColorValue::Rgb(86, 156, 214)),
        (ThemeColor::SyntaxFunction, ColorValue::Rgb(220, 220, 170)),
        (ThemeColor::SyntaxVariable, ColorValue::Rgb(156, 220, 254)),
        (ThemeColor::SyntaxString, ColorValue::Rgb(206, 145, 120)),
        (ThemeColor::SyntaxNumber, ColorValue::Rgb(181, 206, 168)),
        (ThemeColor::SyntaxType, ColorValue::Rgb(78, 201, 176)),
        (ThemeColor::SyntaxOperator, ColorValue::Rgb(212, 212, 212)),
        (ThemeColor::SyntaxPunctuation, ColorValue::Rgb(212, 212, 212)),
        (ThemeColor::ThinkingOff, ColorValue::Rgb(61, 66, 74)),
        (ThemeColor::ThinkingMinimal, ColorValue::Rgb(95, 102, 115)),
        (ThemeColor::ThinkingLow, ColorValue::Rgb(23, 143, 185)),
        (ThemeColor::ThinkingMedium, ColorValue::Rgb(0, 136, 250)),
        (ThemeColor::ThinkingHigh, ColorValue::Rgb(178, 129, 214)),
        (ThemeColor::ThinkingXhigh, ColorValue::Rgb(229, 193, 255)),
        (ThemeColor::BashMode, ColorValue::Rgb(0, 136, 250)),
        (ThemeColor::PythonMode, ColorValue::Rgb(228, 192, 15)),
        (ThemeColor::StatusLineSep, ColorValue::Index256(244)),
        (ThemeColor::StatusLineModel, ColorValue::Rgb(215, 135, 175)),
        (ThemeColor::StatusLinePath, ColorValue::Rgb(0, 175, 175)),
        (ThemeColor::StatusLineGitClean, ColorValue::Rgb(95, 175, 95)),
        (ThemeColor::StatusLineGitDirty, ColorValue::Rgb(215, 175, 95)),
        (ThemeColor::StatusLineContext, ColorValue::Rgb(135, 135, 175)),
        (ThemeColor::StatusLineSpend, ColorValue::Rgb(95, 175, 175)),
        (ThemeColor::StatusLineStaged, ColorValue::Index256(70)),
        (ThemeColor::StatusLineDirty, ColorValue::Index256(178)),
        (ThemeColor::StatusLineUntracked, ColorValue::Index256(39)),
        (ThemeColor::StatusLineOutput, ColorValue::Index256(205)),
        (ThemeColor::StatusLineCost, ColorValue::Index256(205)),
        (ThemeColor::StatusLineSubagents, ColorValue::Rgb(254, 188, 56)),
    ]
}

/// The dark theme's background colors.
pub open spec fn dark_bg_table() -> Seq<(ThemeBg, ColorValue)> {
    seq![
        (ThemeBg::SelectedBg, ColorValue::Rgb(49, 54, 63)),
        (ThemeBg::UserMessageBg, ColorValue::Rgb(34, 29, 26)),
        (ThemeBg::CustomMessageBg, ColorValue::Rgb(42, 37, 48)),
        (ThemeBg::ToolPendingBg, ColorValue::Rgb(29, 33, 41)),
        (ThemeBg::ToolSuccessBg, ColorValue::Rgb(22, 26, 31)),
        (ThemeBg::ToolErrorBg, ColorValue::Rgb(41, 29, 29)),
        (ThemeBg::StatusLineBg, ColorValue::Rgb(18, 18, 18)),
    ]
}

/// The dark theme's foreground colors (the terminal's default text colors
/// are left out).
fn dark_fg_colors() -> (r: Vec<(ThemeColor, ColorValue)>)
    ensures
        r@ == dark_fg_table(),
{
    let r = vec![
        (ThemeColor::Accent, ColorValue::Rgb(254, 188, 56)),
        (ThemeColor::Border, ColorValue::Rgb(23, 143, 185)),
        (ThemeColor::BorderAccent, ColorValue::Rgb(0, 136, 250)),
        (ThemeColor::BorderMuted, ColorValue::Rgb(61, 66, 74)),
        (ThemeColor::Success, ColorValue::Rgb(137, 210, 129)),
        (ThemeColor::Error, ColorValue::Rgb(252, 58, 75)),
        (ThemeColor::Warning, ColorValue::Rgb(228, 192, 15)),
        (ThemeColor::Muted, ColorValue::Rgb(119, 125, 136)),
        (ThemeColor::Dim, ColorValue::Rgb(95, 102, 115)),
        (ThemeColor::ThinkingText, ColorValue::Rgb(119, 125, 136)),
        (ThemeColor::CustomMessageLabel, ColorValue::Rgb(178, 129, 214)),
        (ThemeColor::ToolOutput, ColorValue::Rgb(119, 125, 136)),
        (ThemeColor::MdHeading, ColorValue::Rgb(254, 188, 56)),
        (ThemeColor::MdLink, ColorValue::Rgb(0, 136, 250)),
        (ThemeColor::MdLinkUrl, ColorValue::Rgb(95, 102, 115)),
        (ThemeColor::MdCode, ColorValue::Rgb(229, 193, 255)),
        (ThemeColor::MdCodeBlock, ColorValue::Rgb(156, 220, 254)),
        (ThemeColor::MdCodeBlockBorder, ColorValue::Rgb(61, 66, 74)),
        (ThemeColor::MdQuote, ColorValue::Rgb(119, 125, 136)),
        (ThemeColor::MdQuoteBorder, ColorValue::Rgb(61, 66, 74)),
        (ThemeColor::MdHr, ColorValue::Rgb(61, 66, 74)),
        (ThemeColor::MdListBullet, ColorValue::Rgb(254, 188, 56)),
        (ThemeColor::ToolDiffAdded, ColorValue::Rgb(137, 210, 129)),
        (ThemeColor::ToolDiffRemoved, ColorValue::Rgb(252, 58, 75)),
        (ThemeColor::ToolDiffContext, ColorValue::Rgb(119, 125, 136)),
        (ThemeColor::SyntaxComment, ColorValue::Rgb(106, 153, 85)),
        (ThemeColor::SyntaxKeyword, ColorValue::Rgb(86, 156, 214)),
        (ThemeColor::SyntaxFunction, ColorValue::Rgb(220, 220, 170)),
        (ThemeColor::SyntaxVariable, ColorValue::Rgb(156, 220, 254)),
        (ThemeColor::SyntaxString, ColorValue::Rgb(206, 145, 120)),
        (ThemeColor::SyntaxNumber, ColorValue::Rgb(181, 206, 168)),
        (ThemeColor::SyntaxType, ColorValue::Rgb(78, 201, 176)),
        (ThemeColor::SyntaxOperator, ColorValue::Rgb(212, 212, 212)),
        (ThemeColor::SyntaxPunctuation, ColorValue::Rgb(212, 212, 212)),
        (ThemeColor::ThinkingOff, ColorValue::Rgb(61, 66, 74)),
        (ThemeColor::ThinkingMinimal, ColorValue::Rgb(95, 102, 115)),
        (ThemeColor::ThinkingLow, ColorValue::Rgb(23, 143, 185)),
        (ThemeColor::ThinkingMedium, ColorValue::Rgb(0, 136, 250)),
        (ThemeColor::ThinkingHigh, ColorValue::Rgb(178, 129, 214)),
        (ThemeColor::ThinkingXhigh, ColorValue::Rgb(229, 193, 255)),
        (ThemeColor::BashMode, ColorValue::Rgb(0, 136, 250)),
        (ThemeColor::PythonMode, ColorValue::Rgb(228, 192, 15)),
        (ThemeColor::StatusLineSep, ColorValue::Index256(244)),
        (ThemeColor::StatusLineModel, ColorValue::Rgb(215, 135, 175)),
        (ThemeColor::StatusLinePath, ColorValue::Rgb(0, 175, 175)),
        (ThemeColor::StatusLineGitClean, ColorValue::Rgb(95, 175, 95)),
        (ThemeColor::StatusLineGitDirty, ColorValue::Rgb(215, 175, 95)),
        (ThemeColor::StatusLineContext, ColorValue::Rgb(135, 135, 175)),
        (ThemeColor::StatusLineSpend, ColorValue::Rgb(95, 175, 175)),
        (ThemeColor::StatusLineStaged, ColorValue::Index256(70)),
        (ThemeColor::StatusLineDirty, ColorValue::Index256(178)),
        (ThemeColor::StatusLineUntracked, ColorValue::Index256(39)),
        (ThemeColor::StatusLineOutput, ColorValue::Index256(205)),
        (ThemeColor::StatusLineCost, ColorValue::Index256(205)),
        (ThemeColor::StatusLineSubagents, ColorValue::Rgb(254, 188, 56)),
    ];
    assert(r@ =~= dark_fg_table());
    r
}

/// The dark theme's background colors.
fn dark_bg_colors() -> (r: Vec<(ThemeBg, ColorValue)>)
    ensures
        r@ == dark_bg_table(),
{
    let r = vec![
        (ThemeBg::SelectedBg, ColorValue::Rgb(49, 54, 63)),
        (ThemeBg::UserMessageBg, ColorValue::Rgb(34, 29, 26)),
        (ThemeBg::CustomMessageBg, ColorValue::Rgb(42, 37, 48)),
        (ThemeBg::ToolPendingBg, ColorValue::Rgb(29, 33, 41)),
        (ThemeBg::ToolSuccessBg, ColorValue::Rgb(22, 26, 31)),
        (ThemeBg::ToolErrorBg, ColorValue::Rgb(41, 29, 29)),
        (ThemeBg::StatusLineBg, ColorValue::Rgb(18, 18, 18)),
    ];
    assert(r@ =~= dark_bg_table());
    r
}


/// Terminal color capability.
#[derive(Debug, Clone, Copy, PartialEq, Eq, Structural)]
pub enum ColorMode {
    TrueColor,
    Color256,
}

/// A color: RGB components or a 256-color palette index.
#[derive(Debug, Clone, Copy)]
pub enum ColorValue {
    Rgb(u8, u8, u8),
    Index256(u8),
}

/// Theme colors for syntax highlighting: each an ANSI escape sequence.
#[derive(Debug, Clone)]
pub struct HighlightColors {
    pub comment: String,
    pub keyword: String,
    pub function: String,
    pub variable: String,
    pub string: String,
    pub number: String,
    pub type_: String,
    pub operator: String,
    pub punctuation: String,
    pub inserted: Option<String>,
    pub deleted: Option<String>,
}

/// Nearest index in the 6x6x6 color cube (palette entries 16 to 231).
pub open spec fn cube_index(r: u8, g: u8, b: u8) -> nat {
    (16 + 36 * (r * 5 / 255) + 6 * (g * 5 / 255) + b * 5 / 255) as nat
}

/// Nearest 256-color palette index of an RGB color.
pub fn rgb_to_256(r: u8, g: u8, b: u8) -> (i: u8)
    ensures
        i == cube_index(r, g, b),
{
    let ri = ((r as u16) * 5 / 255) as u8;
    let gi = ((g as u16) * 5 / 255) as u8;
    let bi = ((b as u16) * 5 / 255) as u8;
    16 + 36 * ri + 6 * gi + bi
}

/// The SGR sequence selecting color `v` as foreground (`base` 38) or
/// background (`base` 48).
pub open spec fn sgr_color(base: nat, v: ColorValue, mode: ColorMode) -> Seq<char> {
    seq!['\x1b', '['] + dec_digits(base) + match v {
        ColorValue::Rgb(r, g, b) => if mode == ColorMode::TrueColor {
            seq![';', '2', ';'] + dec_digits(r as nat) + seq![';'] + dec_digits(g as nat) + seq![';']
                + dec_digits(b as nat)
        } else {
            seq![';', '5', ';'] + dec_digits(cube_index(r, g, b))
        },
        ColorValue::Index256(i) => seq![';', '5', ';'] + dec_digits(i as nat),
    } + seq!['m']
}

fn sgr_color_string(base: u64, v: &ColorValue, mode: ColorMode) -> (s: String)
    ensures
        s@ == sgr_color(base as nat, *v, mode),
{
    let mut s = String::new();
    s.push('\x1b');
    s.push('[');
    s.append(dec_string(base).as_str());
    let ghost s0 = s@;
    match v {
        ColorValue::Rgb(r, g, b) => {
            if mode == ColorMode::TrueColor {
                s.push(';');
                s.push('2');
                s.push(';');
                s.append(dec_string(*r as u64).as_str());
                s.push(';');
                s.append(dec_string(*g as u64).as_str());
                s.push(';');
                s.append(dec_string(*b as u64).as_str());
            } else {
                s.push(';');
                s.push('5');
                s.push(';');
                let idx = rgb_to_256(*r, *g, *b);
                s.append(dec_string(idx as u64).as_str());
            }
        },
        ColorValue::Index256(i) => {
            s.push(';');
            s.push('5');
            s.push(';');
            s.append(dec_string(*i as u64).as_str());
        },
    }
    s.push('m');
    assert(s@ =~= sgr_color(base as nat, *v, mode));
    s
}

/// The value that the last pair for `c` gives it.
pub open spec fn last_fg(pairs: Seq<(ThemeColor, ColorValue)>, c: ThemeColor) -> Option<ColorValue>
    decreases pairs.len(),
{
    if pairs.len() == 0 {
        None
    } else if pairs.last().0 == c {
        Some(pairs.last().1)
    } else {
        last_fg(pairs.drop_last(), c)
    }
}

/// The value that the last pair for `c` gives it.
pub open spec fn last_bg(pairs: Seq<(ThemeBg, ColorValue)>, c: ThemeBg) -> Option<ColorValue>
    decreases pairs.len(),
{
    if pairs.len() == 0 {
        None
    } else if pairs.last().0 == c {
        Some(pairs.last().1)
    } else {
        last_bg(pairs.drop_last(), c)
    }
}

pub open spec fn sgr_of(base: nat, v: Option<ColorValue>, mode: ColorMode) -> Option<Seq<char>> {
    match v {
        Some(x) => Some(sgr_color(base, x, mode)),
        None => None,
    }
}

/// `text` between `open` and `close`.
pub open spec fn wrapped(open: Seq<char>, text: Seq<char>, close: Seq<char>) -> Seq<char> {
    open + text + close
}

/// `CSI n m`: the SGR sequence with parameter `n`.
pub open spec fn sgr(n: nat) -> Seq<char> {
    seq!['\x1b', '['] + dec_digits(n) + seq!['m']
}

fn sgr_wrap(open: u64, text: &str, close: u64) -> (s: String)
    ensures
        s@ == wrapped(sgr(open as nat), text@, sgr(close as nat)),
{
    let mut s = String::new();
    s.push('\x1b');
    s.push('[');
    s.append(dec_string(open).as_str());
    s.push('m');
    s.append(text);
    s.push('\x1b');
    s.push('[');
    s.append(dec_string(close).as_str());
    s.push('m');
    assert(s@ =~= wrapped(sgr(open as nat), text@, sgr(close as nat)));
    s
}

/// The text held at position `i`, if any.
pub open spec fn slot_view(v: Seq<Option<String>>, i: int) -> Option<Seq<char>> {
    match v[i] {
        Some(s) => Some(s@),
        None => None,
    }
}

/// Colors and styling shared by all components: the escape sequence of
/// each foreground and background color that the theme sets.
pub struct Theme {
    fg_colors: Vec<Option<String>>,
    bg_colors: Vec<Option<String>>,
}

impl Theme {
    #[verifier::type_invariant]
    spec fn tables_sized(self) -> bool {
        self.fg_colors@.len() == 59 && self.bg_colors@.len() == 7
    }

    /// The escape sequence the theme sets for foreground color `c`.
    pub closed spec fn fg_entry(self, c: ThemeColor) -> Option<Seq<char>> {
        slot_view(self.fg_colors@, fg_slot(c))
    }

    /// The escape sequence the theme sets for background color `c`.
    pub closed spec fn bg_entry(self, c: ThemeBg) -> Option<Seq<char>> {
        slot_view(self.bg_colors@, bg_slot(c))
    }

    /// A theme from color values, each turned into an escape sequence for
    /// `mode`; where a color appears twice the later value counts.
    pub fn new(
        fg_values: Vec<(ThemeColor, ColorValue)>,
        bg_values: Vec<(ThemeBg, ColorValue)>,
        mode: ColorMode,
    ) -> (t: Self)
        ensures
            forall|c: ThemeColor| #[trigger] t.fg_entry(c) == sgr_of(38, last_fg(fg_values@, c), mode),
            forall|c: ThemeBg| #[trigger] t.bg_entry(c) == sgr_of(48, last_bg(bg_values@, c), mode),
    {
        let mut fg_colors: Vec<Option<String>> = Vec::new();
        let mut k: usize = 0;
        while k < 59
            invariant
                k <= 59,
                fg_colors@.len() == k,
                forall|j: int| 0 <= j < k ==> fg_colors@[j] is None,
            decreases 59 - k,
        {
            fg_colors.push(None);
            k = k + 1;
        }
        let mut i: usize = 0;
        while i < fg_values.len()
            invariant
                i <= fg_values@.len(),
                fg_colors@.len() == 59,
                forall|c: ThemeColor| #[trigger] slot_view(fg_colors@, fg_slot(c)) == sgr_of(38, last_fg(fg_values@.take(i as int), c), mode),
            decreases fg_values@.len() - i,
        {
            let (key, value) = fg_values[i];
            let slot = fg_index(key);
            let ansi = sgr_color_string(38, &value, mode);
            let ghost old_tab = fg_colors@;
            fg_colors.set(slot, Some(ansi));
            proof {
                assert(fg_values@.take(i + 1).last() == fg_values@[i as int]);
                assert(fg_values@.take(i + 1).drop_last() =~= fg_values@.take(i as int));
                assert forall|c: ThemeColor| #[trigger] slot_view(fg_colors@, fg_slot(c)) == sgr_of(38, last_fg(fg_values@.take(i + 1), c), mode) by {
                    assert(slot_view(old_tab, fg_slot(c)) == sgr_of(38, last_fg(fg_values@.take(i as int), c), mode));
                    if c != key {
                        assert(fg_slot(c) != fg_slot(key));
                    }
                }
            }
            i = i + 1;
        }
        assert(fg_values@.take(fg_values@.len() as int) =~= fg_values@);
        let mut bg_colors: Vec<Option<String>> = Vec::new();
        let mut k: usize = 0;
        while k < 7
            invariant
                k <= 7,
                bg_colors@.len() == k,
                forall|j: int| 0 <= j < k ==> bg_colors@[j] is None,
            decreases 7 - k,
        {
            bg_colors.push(None);
            k = k + 1;
        }
        let mut i: usize = 0;
        while i < bg_values.len()
            invariant
                i <= bg_values@.len(),
                bg_colors@.len() == 7,
                forall|c: ThemeBg| #[trigger] slot_view(bg_colors@, bg_slot(c)) == sgr_of(48, last_bg(bg_values@.take(i as int), c), mode),
            decreases bg_values@.len() - i,
        {
            let (key, value) = bg_values[i];
            let slot = bg_index(key);
            let ansi = sgr_color_string(48, &value, mode);
            let ghost old_tab = bg_colors@;
            bg_colors.set(slot, Some(ansi));
            proof {
                assert(bg_values@.take(i + 1).last() == bg_values@[i as int]);
                assert(bg_values@.take(i + 1).drop_last() =~= bg_values@.take(i as int));
                assert forall|c: ThemeBg| #[trigger] slot_view(bg_colors@, bg_slot(c)) == sgr_of(48, last_bg(bg_values@.take(i + 1), c), mode) by {
                    assert(slot_view(old_tab, bg_slot(c)) == sgr_of(48, last_bg(bg_values@.take(i as int), c), mode));
                    if c != key {
                        assert(bg_slot(c) != bg_slot(key));
                    }
                }
            }
            i = i + 1;
        }
        assert(bg_values@.take(bg_values@.len() as int) =~= bg_values@);
        Theme { fg_colors, bg_colors }
    }

    /// The dark theme for color mode `mode`.
    pub fn dark_with_mode(mode: ColorMode) -> (t: Self)
        ensures
            forall|c: ThemeColor| #[trigger] t.fg_entry(c) == sgr_of(38, last_fg(dark_fg_table(), c), mode),
            forall|c: ThemeBg| #[trigger] t.bg_entry(c) == sgr_of(48, last_bg(dark_bg_table(), c), mode),
    {
        Theme::new(dark_fg_colors(), dark_bg_colors(), mode)
    }

    /// `text` in foreground color `color`, followed by the foreground reset;
    /// unchanged where the theme sets no such color.
    pub fn fg(&self, color: ThemeColor, text: &str) -> (r: String)
        ensures
            r@ == match self.fg_entry(color) {
                Some(a) => wrapped(a, text@, sgr(39)),
                None => text@,
            },
    {
        proof {
            use_type_invariant(self);
        }
        match &self.fg_colors[fg_index(color)] {
            Some(ansi) => {
                let mut s = String::from_str(ansi.as_str());
                s.append(text);
                s.append(sgr_string(39).as_str());
                s
            },
            None => String::from_str(text),
        }
    }

    /// `text` on background color `color`, followed by the background reset;
    /// unchanged where the theme sets no such color.
    pub fn bg(&self, color: ThemeBg, text: &str) -> (r: String)
        ensures
            r@ == match self.bg_entry(color) {
                Some(a) => wrapped(a, text@, sgr(49)),
                None => text@,
            },
    {
        proof {
            use_type_invariant(self);
        }
        match &self.bg_colors[bg_index(color)] {
            Some(ansi) => {
                let mut s = String::from_str(ansi.as_str());
                s.append(text);
                s.append(sgr_string(49).as_str());
                s
            },
            None => String::from_str(text),
        }
    }

    /// Bold text.
    pub fn bold(&self, text: &str) -> (r: String)
        ensures
            r@ == wrapped(sgr(1), text@, sgr(22)),
    {
        sgr_wrap(1, text, 22)
    }

    /// Italic text.
    pub fn italic(&self, text: &str) -> (r: String)
        ensures
            r@ == wrapped(sgr(3), text@, sgr(23)),
    {
        sgr_wrap(3, text, 23)
    }

    /// Dim text.
    pub fn dim(&self, text: &str) -> (r: String)
        ensures
            r@ == wrapped(sgr(2), text@, sgr(22)),
    {
        sgr_wrap(2, text, 22)
    }

    /// Underlined text.
    pub fn underline(&self, text: &str) -> (r: String)
        ensures
            r@ == wrapped(sgr(4), text@, sgr(24)),
    {
        sgr_wrap(4, text, 24)
    }

    /// Struck-through text.
    pub fn strikethrough(&self, text: &str) -> (r: String)
        ensures
            r@ == wrapped(sgr(9), text@, sgr(29)),
    {
        sgr_wrap(9, text, 29)
    }

    /// Inverse text (foreground and background swapped).
    pub fn inverse(&self, text: &str) -> (r: String)
        ensures
            r@ == wrapped(sgr(7), text@, sgr(27)),
    {
        sgr_wrap(7, text, 27)
    }

    /// The foreground escape sequence of `color`, empty where the theme sets
    /// none.
    pub fn fg_ansi(&self, color: ThemeColor) -> (r: &str)
        ensures
            r@ == match self.fg_entry(color) {
                Some(a) => a,
                None => Seq::empty(),
            },
    {
        proof {
            use_type_invariant(self);
        }
        match &self.fg_colors[fg_index(color)] {
            Some(ansi) => ansi.as_str(),
            None => {
                proof {
                    reveal_strlit("");
                }
                ""
            },
        }
    }

    /// The background escape sequence of `color`, empty where the theme sets
    /// none.
    pub fn bg_ansi(&self, color: ThemeBg) -> (r: &str)
        ensures
            r@ == match self.bg_entry(color) {
                Some(a) => a,
                None => Seq::empty(),
            },
    {
        proof {
            use_type_invariant(self);
        }
        match &self.bg_colors[bg_index(color)] {
            Some(ansi) => ansi.as_str(),
            None => {
                proof {
                    reveal_strlit("");
                }
                ""
            },
        }
    }

    /// Syntax highlighting colors taken from this theme.
    pub fn highlight_colors(&self) -> (h: HighlightColors)
        ensures
            h.comment@ == self.fg_text(ThemeColor::SyntaxComment),
            h.keyword@ == self.fg_text(ThemeColor::SyntaxKeyword),
            h.function@ == self.fg_text(ThemeColor::SyntaxFunction),
            h.variable@ == self.fg_text(ThemeColor::SyntaxVariable),
            h.string@ == self.fg_text(ThemeColor::SyntaxString),
            h.number@ == self.fg_text(ThemeColor::SyntaxNumber),
            h.type_@ == self.fg_text(ThemeColor::SyntaxType),
            h.operator@ == self.fg_text(ThemeColor::SyntaxOperator),
            h.punctuation@ == self.fg_text(ThemeColor::SyntaxPunctuation),
            h.inserted matches Some(s) && s@ == self.fg_text(ThemeColor::ToolDiffAdded),
            h.deleted matches Some(s) && s@ == self.fg_text(ThemeColor::ToolDiffRemoved),
    {
        HighlightColors {
            comment: String::from_str(self.fg_ansi(ThemeColor::SyntaxComment)),
            keyword: String::from_str(self.fg_ansi(ThemeColor::SyntaxKeyword)),
            function: String::from_str(self.fg_ansi(ThemeColor::SyntaxFunction)),
            variable: String::from_str(self.fg_ansi(ThemeColor::SyntaxVariable)),
            string: String::from_str(self.fg_ansi(ThemeColor::SyntaxString)),
            number: String::from_str(self.fg_ansi(ThemeColor::SyntaxNumber)),
            type_: String::from_str(self.fg_ansi(ThemeColor::SyntaxType)),
            operator: String::from_str(self.fg_ansi(ThemeColor::SyntaxOperator)),
            punctuation: String::from_str(self.fg_ansi(ThemeColor::SyntaxPunctuation)),
            inserted: Some(String::from_str(self.fg_ansi(ThemeColor::ToolDiffAdded))),
            deleted: Some(String::from_str(self.fg_ansi(ThemeColor::ToolDiffRemoved))),
        }
    }

    /// The style that colors text with foreground color `color`: the
    /// color's sequence before and the foreground reset after; no change
    /// where the theme sets no such color.
    pub fn fg_style(&self, color: ThemeColor) -> (st: Style)
        ensures
            self.is_fg_style(st, color),
    {
        let ansi = self.fg_ansi(color);
        if byte_length_zero(ansi) {
            Style::plain()
        } else {
            Style { prefix: String::from_str(ansi), suffix: sgr_string(39) }
        }
    }

    /// Styles of a select list: accent for the selection, muted for the
    /// rest.
    pub fn select_list_theme(&self, symbols: SymbolTheme) -> (t: SelectListTheme)
        ensures
            self.is_fg_style(t.selected_prefix, ThemeColor::Accent),
            self.is_fg_style(t.selected_text, ThemeColor::Accent),
            self.is_fg_style(t.description, ThemeColor::Muted),
            self.is_fg_style(t.scroll_info, ThemeColor::Muted),
            self.is_fg_style(t.no_match, ThemeColor::Muted),
    {
        SelectListTheme {
            selected_prefix: self.fg_style(ThemeColor::Accent),
            selected_text: self.fg_style(ThemeColor::Accent),
            description: self.fg_style(ThemeColor::Muted),
            scroll_info: self.fg_style(ThemeColor::Muted),
            no_match: self.fg_style(ThemeColor::Muted),
            symbols,
        }
    }

    /// Styles of a tab bar: a bold accent label, the active tab bold on the
    /// selection background, muted inactive tabs and a dim hint.
    pub fn tab_bar_theme(&self) -> (t: TabBarTheme)
        ensures
            t.label.prefix@ == sgr(1) + self.fg_text(ThemeColor::Accent),
            t.label.suffix@ == (if self.fg_text(ThemeColor::Accent).len() == 0 { Seq::empty() } else { sgr(39) }) + sgr(22),
            t.active_tab.prefix@ == sgr(1) + self.bg_text(ThemeBg::SelectedBg),
            t.active_tab.suffix@ == (if self.bg_text(ThemeBg::SelectedBg).len() == 0 { Seq::empty() } else { sgr(49) }) + sgr(22),
            self.is_fg_style(t.inactive_tab, ThemeColor::Muted),
            self.is_fg_style(t.hint, ThemeColor::Dim),
    {
        let accent = self.fg_ansi(ThemeColor::Accent);
        let mut label_prefix = sgr_string(1);
        label_prefix.append(accent);
        let mut label_suffix = String::new();
        if !byte_length_zero(accent) {
            label_suffix.append(sgr_string(39).as_str());
        }
        label_suffix.append(sgr_string(22).as_str());
        let bg = self.bg_ansi(ThemeBg::SelectedBg);
        let mut active_prefix = sgr_string(1);
        active_prefix.append(bg);
        let mut active_suffix = String::new();
        if !byte_length_zero(bg) {
            active_suffix.append(sgr_string(49).as_str());
        }
        active_suffix.append(sgr_string(22).as_str());
        TabBarTheme {
            label: Style { prefix: label_prefix, suffix: label_suffix },
            active_tab: Style { prefix: active_prefix, suffix: active_suffix },
            inactive_tab: self.fg_style(ThemeColor::Muted),
            hint: self.fg_style(ThemeColor::Dim),
        }
    }

    /// Styles of a filterable select: the tab bar's and the select list's
    /// styles of this theme, a dim search hint and a muted border.
    pub fn filterable_select_theme(&self, symbols: SymbolTheme) -> (t: FilterableSelectTheme)
        ensures
            t.tab_bar.label.prefix@ == sgr(1) + self.fg_text(ThemeColor::Accent),
            t.tab_bar.label.suffix@ == (if self.fg_text(ThemeColor::Accent).len() == 0 { Seq::empty() } else { sgr(39) }) + sgr(22),
            t.tab_bar.active_tab.prefix@ == sgr(1) + self.bg_text(ThemeBg::SelectedBg),
            t.tab_bar.active_tab.suffix@ == (if self.bg_text(ThemeBg::SelectedBg).len() == 0 { Seq::empty() } else { sgr(49) }) + sgr(22),
            self.is_fg_style(t.tab_bar.inactive_tab, ThemeColor::Muted),
            self.is_fg_style(t.tab_bar.hint, ThemeColor::Dim),
            self.is_fg_style(t.select_list.selected_prefix, ThemeColor::Accent),
            self.is_fg_style(t.select_list.selected_text, ThemeColor::Accent),
            self.is_fg_style(t.select_list.description, ThemeColor::Muted),
            self.is_fg_style(t.select_list.scroll_info, ThemeColor::Muted),
            self.is_fg_style(t.select_list.no_match, ThemeColor::Muted),
            self.is_fg_style(t.search_hint, ThemeColor::Dim),
            self.is_fg_style(t.border, ThemeColor::BorderMuted),
    {
        FilterableSelectTheme {
            tab_bar: self.tab_bar_theme(),
            select_list: self.select_list_theme(symbols),
            search_hint: self.fg_style(ThemeColor::Dim),
            border: self.fg_style(ThemeColor::BorderMuted),
        }
    }

    /// The style of a border in color `color`.
    pub fn border_color_fn(&self, color: ThemeColor) -> (st: Style)
        ensures
            self.is_fg_style(st, color),
    {
        self.fg_style(color)
    }

    /// The style of hints: the dim color.
    pub fn hint_style_fn(&self) -> (st: Style)
        ensures
            self.is_fg_style(st, ThemeColor::Dim),
    {
        self.fg_style(ThemeColor::Dim)
    }

    /// Whether `st` colors text with foreground color `color`, as
    /// `fg_style` makes it.
    pub open spec fn is_fg_style(self, st: Style, color: ThemeColor) -> bool {
        if self.fg_text(color).len() == 0 {
            st.prefix@.len() == 0 && st.suffix@.len() == 0
        } else {
            st.prefix@ == self.fg_text(color) && st.suffix@ == sgr(39)
        }
    }

    /// The background escape sequence of `c` as text, empty where unset.
    pub open spec fn bg_text(self, c: ThemeBg) -> Seq<char> {
        match self.bg_entry(c) {
            Some(a) => a,
            None => Seq::empty(),
        }
    }

    /// The foreground escape sequence of `c` as text, empty where unset.
    pub open spec fn fg_text(self, c: ThemeColor) -> Seq<char> {
        match self.fg_entry(c) {
            Some(a) => a,
            None => Seq::empty(),
        }
    }
}

fn byte_length_zero(s: &str) -> (r: bool)
    ensures
        r == (s@.len() == 0),
{
    s.unicode_len() == 0
}

fn sgr_string(n: u64) -> (s: String)
    ensures
        s@ == sgr(n as nat),
{
    let mut s = String::new();
    s.push('\x1b');
    s.push('[');
    s.append(dec_string(n).as_str());
    s.push('m');
    assert(s@ =~= sgr(n as nat));
    s
}

/// The color mode from `COLORTERM`, whether `WT_SESSION` is set, and `TERM`
/// (an unset variable read as empty): true color when `COLORTERM` says so or
/// in Windows Terminal, 256 colors when `TERM` mentions `256color`, and true
/// color otherwise.
pub fn color_mode_from_env(colorterm: &str, wt_session: bool, term: &str) -> (m: ColorMode)
    ensures
        m == if colorterm@ == "truecolor"@ || colorterm@ == "24bit"@ || wt_session {
            ColorMode::TrueColor
        } else if seq_find(term@, "256color"@, 0) is Some {
            ColorMode::Color256
        } else {
            ColorMode::TrueColor
        },
{
    if str_eq(colorterm, "truecolor") || str_eq(colorterm, "24bit") {
        return ColorMode::TrueColor;
    }
    if wt_session {
        return ColorMode::TrueColor;
    }
    let t = chars_of(term);
    let needle = chars_of("256color");
    if contains_chars(&t, &needle) {
        return ColorMode::Color256;
    }
    ColorMode::TrueColor
}

/// Value of a hexadecimal digit byte.
pub open spec fn hex_val(b: u8) -> Option<nat> {
    if 0x30 <= b <= 0x39 {
        Some((b - 0x30) as nat)
    } else if 0x61 <= b <= 0x66 {
        Some((b - 0x61 + 10) as nat)
    } else if 0x41 <= b <= 0x46 {
        Some((b - 0x41 + 10) as nat)
    } else {
        None
    }
}

/// A two-byte field read as a hexadecimal `u8` (an optional leading `+`
/// allowed), 0 where it is not one.
pub open spec fn hex_field(a: u8, b: u8) -> nat {
    if a == 0x2b {
        match hex_val(b) {
            Some(v) => v,
            None => 0,
        }
    } else {
        match (hex_val(a), hex_val(b)) {
            (Some(x), Some(y)) => x * 16 + y,
            _ => 0,
        }
    }
}

/// `s` without its leading `#` characters.
pub open spec fn trim_hashes(s: Seq<char>) -> Seq<char>
    decreases s.len(),
{
    if s.len() > 0 && s[0] == '#' {
        trim_hashes(s.drop_first())
    } else {
        s
    }
}

/// The (r, g, b) components written in `hex` as `#rrggbb`; (0, 0, 0) when
/// fewer than six bytes follow the `#`s, and 0 for a field that is not hex.
pub open spec fn hex_rgb(hex: Seq<char>) -> (nat, nat, nat) {
    let b = encode_utf8(trim_hashes(hex));
    if b.len() < 6 {
        (0, 0, 0)
    } else {
        (hex_field(b[0], b[1]), hex_field(b[2], b[3]), hex_field(b[4], b[5]))
    }
}

fn hex_digit(b: u8) -> (r: Option<u8>)
    ensures
        match hex_val(b) {
            Some(v) => r == Some(v as u8),
            None => r is None,
        },
{
    if 0x30 <= b && b <= 0x39 {
        Some(b - 0x30)
    } else if 0x61 <= b && b <= 0x66 {
        Some(b - 0x61 + 10)
    } else if 0x41 <= b && b <= 0x46 {
        Some(b - 0x41 + 10)
    } else {
        None
    }
}

fn hex_pair(a: u8, b: u8) -> (r: u8)
    ensures
        r == hex_field(a, b),
{
    if a == 0x2b {
        match hex_digit(b) {
            Some(v) => v,
            None => 0,
        }
    } else {
        match (hex_digit(a), hex_digit(b)) {
            (Some(x), Some(y)) => x * 16 + y,
            _ => 0,
        }
    }
}

/// Read a hex color such as `#ff00aa` into (r, g, b).
pub fn parse_hex(hex: &str) -> (r: (u8, u8, u8))
    requires
        encode_utf8(trim_hashes(hex@)).len() >= 6 ==> is_char_boundary(
            encode_utf8(trim_hashes(hex@)),
            2,
        ) && is_char_boundary(encode_utf8(trim_hashes(hex@)), 4) && is_char_boundary(
            encode_utf8(trim_hashes(hex@)),
            6,
        ),
    ensures
        (r.0 as nat, r.1 as nat, r.2 as nat) == hex_rgb(hex@),
{
    let v = chars_of(hex);
    let mut k: usize = 0;
    assert(v@.skip(0) =~= v@);
    while k < v.len() && v[k] == '#'
        invariant
            v@ == hex@,
            k <= v@.len(),
            trim_hashes(hex@) == trim_hashes(v@.skip(k as int)),
        decreases v@.len() - k,
    {
        assert(v@.skip(k as int).drop_first() =~= v@.skip(k + 1));
        k = k + 1;
    }
    let rest = crate::strs::string_from_range(v.as_slice(), k, v.len());
    proof {
        assert(rest@ =~= v@.skip(k as int));
        if k < v@.len() {
            assert(v@.skip(k as int)[0] != '#');
        }
        assert(trim_hashes(v@.skip(k as int)) == v@.skip(k as int));
    }
    let b = rest.as_str().as_bytes();
    if b.len() < 6 {
        return (0, 0, 0);
    }
    (hex_pair(b[0], b[1]), hex_pair(b[2], b[3]), hex_pair(b[4], b[5]))
}

} // verus!
