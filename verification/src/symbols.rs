//! Symbols and box-drawing characters used in rendering.

use vstd::prelude::*;

verus! {

/// Box-drawing characters.
#[derive(Debug, Clone)]
pub struct BoxSymbols {
    pub top_left: &'static str,
    pub top_right: &'static str,
    pub bottom_left: &'static str,
    pub bottom_right: &'static str,
    pub horizontal: &'static str,
    pub vertical: &'static str,
    pub tee_down: &'static str,
    pub tee_up: &'static str,
    pub tee_left: &'static str,
    pub tee_right: &'static str,
    pub cross: &'static str,
}

/// Rounded box corners and edges (no tees or crossing).
#[derive(Debug, Clone)]
pub struct RoundedBoxSymbols {
    pub top_left: &'static str,
    pub top_right: &'static str,
    pub bottom_left: &'static str,
    pub bottom_right: &'static str,
    pub horizontal: &'static str,
    pub vertical: &'static str,
}

/// The symbols a user interface draws with.
#[derive(Debug, Clone)]
pub struct SymbolTheme {
    pub cursor: &'static str,
    pub input_cursor: &'static str,
    pub box_round: RoundedBoxSymbols,
    pub box_sharp: BoxSymbols,
    pub table: BoxSymbols,
    pub quote_border: &'static str,
    pub hr_char: &'static str,
    pub spinner_frames: &'static [&'static str],
}

impl SymbolTheme {
    /// Plain symbols: `>` and `|` for the cursors, rounded and sharp
    /// single-line boxes, `│` for quotes, `─` for rules and a single
    /// spinner frame.
    pub fn plain() -> (t: SymbolTheme)
        ensures
            t.cursor@ == ">"@,
            t.input_cursor@ == "|"@,
            t.box_round.top_left@ == "╭"@,
            t.box_round.top_right@ == "╮"@,
            t.box_round.bottom_left@ == "╰"@,
            t.box_round.bottom_right@ == "╯"@,
            t.box_round.horizontal@ == "─"@,
            t.box_round.vertical@ == "│"@,
            t.box_sharp == t.table,
            t.table.top_left@ == "┌"@,
            t.table.top_right@ == "┐"@,
            t.table.bottom_left@ == "└"@,
            t.table.bottom_right@ == "┘"@,
            t.table.horizontal@ == "─"@,
            t.table.vertical@ == "│"@,
            t.table.tee_down@ == "┬"@,
            t.table.tee_up@ == "┴"@,
            t.table.tee_left@ == "┤"@,
            t.table.tee_right@ == "├"@,
            t.table.cross@ == "┼"@,
            t.quote_border@ == "│"@,
            t.hr_char@ == "─"@,
            t.spinner_frames@.len() == 1,
            t.spinner_frames@[0]@ == "⠋"@,
    {
        let sharp = BoxSymbols {
            top_left: "┌",
            top_right: "┐",
            bottom_left: "└",
            bottom_right: "┘",
            horizontal: "─",
            vertical: "│",
            tee_down: "┬",
            tee_up: "┴",
            tee_left: "┤",
            tee_right: "├",
            cross: "┼",
        };
        SymbolTheme {
            cursor: ">",
            input_cursor: "|",
            box_round: RoundedBoxSymbols {
                top_left: "╭",
                top_right: "╮",
                bottom_left: "╰",
                bottom_right: "╯",
                horizontal: "─",
                vertical: "│",
            },
            box_sharp: sharp,
            table: BoxSymbols {
                top_left: "┌",
                top_right: "┐",
                bottom_left: "└",
                bottom_right: "┘",
                horizontal: "─",
                vertical: "│",
                tee_down: "┬",
                tee_up: "┴",
                tee_left: "┤",
                tee_right: "├",
                cross: "┼",
            },
            quote_border: "│",
            hr_char: "─",
            spinner_frames: &["⠋"],
        }
    }
}

} // verus!
