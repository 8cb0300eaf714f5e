use rho_tui::theme::{parse_hex, rgb_to_256, ColorMode, Theme, ThemeBg, ThemeColor};


#[test]
fn test_dark_theme_creates_without_panic() {
	let theme = Theme::dark_with_mode(ColorMode::TrueColor);
	// Verify all colors are present
	let text = theme.fg(ThemeColor::Accent, "hello");
	assert!(text.contains("\x1b[38;2;"));
	assert!(text.contains("hello"));
	assert!(text.ends_with("\x1b[39m"));
}


#[test]
fn test_fg_wraps_with_reset() {
	let theme = Theme::dark_with_mode(ColorMode::TrueColor);
	let result = theme.fg(ThemeColor::Success, "ok");
	// Should be: \x1b[38;2;137;210;129m ok \x1b[39m
	assert!(result.starts_with("\x1b[38;2;"));
	assert!(result.contains("ok"));
	assert!(result.ends_with("\x1b[39m"));
}


#[test]
fn test_bg_wraps_with_reset() {
	let theme = Theme::dark_with_mode(ColorMode::TrueColor);
	let result = theme.bg(ThemeBg::UserMessageBg, "msg");
	assert!(result.starts_with("\x1b[48;2;"));
	assert!(result.contains("msg"));
	assert!(result.ends_with("\x1b[49m"));
}


#[test]
fn test_bold_wraps() {
	let theme = Theme::dark_with_mode(ColorMode::TrueColor);
	assert_eq!(theme.bold("x"), "\x1b[1mx\x1b[22m");
}


#[test]
fn test_italic_wraps() {
	let theme = Theme::dark_with_mode(ColorMode::TrueColor);
	assert_eq!(theme.italic("x"), "\x1b[3mx\x1b[23m");
}


#[test]
fn test_dim_wraps() {
	let theme = Theme::dark_with_mode(ColorMode::TrueColor);
	assert_eq!(theme.dim("x"), "\x1b[2mx\x1b[22m");
}


#[test]
fn test_composability() {
	let theme = Theme::dark_with_mode(ColorMode::TrueColor);
	// fg + bold should compose without clobbering
	let result = theme.fg(ThemeColor::Accent, &theme.bold("hello"));
	assert!(result.contains("\x1b[1m"));
	assert!(result.contains("hello"));
	assert!(result.contains("\x1b[22m")); // bold reset
	assert!(result.ends_with("\x1b[39m")); // fg reset
}


#[test]
fn test_256_color_mode() {
	let theme = Theme::dark_with_mode(ColorMode::Color256);
	let result = theme.fg(ThemeColor::Accent, "x");
	assert!(result.starts_with("\x1b[38;5;"));
}


#[test]
fn test_256_index_colors() {
	let theme = Theme::dark_with_mode(ColorMode::TrueColor);
	// StatusLineSep uses idx(244) — should produce \x1b[38;5;244m
	let result = theme.fg(ThemeColor::StatusLineSep, "x");
	assert_eq!(result, "\x1b[38;5;244mx\x1b[39m");
}


#[test]
fn test_rgb_to_256() {
	assert_eq!(rgb_to_256(255, 0, 0), 196); // bright red
	assert_eq!(rgb_to_256(0, 0, 0), 16); // black
	assert_eq!(rgb_to_256(255, 255, 255), 231); // white
}


#[test]
fn test_parse_hex() {
	assert_eq!(parse_hex("#febc38"), (254, 188, 56));
	assert_eq!(parse_hex("ff0000"), (255, 0, 0));
	assert_eq!(parse_hex("#000000"), (0, 0, 0));
}

fn test_symbols() -> rho_tui::symbols::SymbolTheme {
	rho_tui::symbols::SymbolTheme {
		cursor:         ">",
		input_cursor:   "|",
		box_round:      rho_tui::symbols::RoundedBoxSymbols {
			top_left:     "╭",
			top_right:    "╮",
			bottom_left:  "╰",
			bottom_right: "╯",
			horizontal:   "─",
			vertical:     "│",
		},
		box_sharp:      rho_tui::symbols::BoxSymbols {
			top_left:     "┌",
			top_right:    "┐",
			bottom_left:  "└",
			bottom_right: "┘",
			horizontal:   "─",
			vertical:     "│",
			tee_down:     "┬",
			tee_up:       "┴",
			tee_left:     "┤",
			tee_right:    "├",
			cross:        "┼",
		},
		table:          rho_tui::symbols::BoxSymbols {
			top_left:     "┌",
			top_right:    "┐",
			bottom_left:  "└",
			bottom_right: "┘",
			horizontal:   "─",
			vertical:     "│",
			tee_down:     "┬",
			tee_up:       "┴",
			tee_left:     "┤",
			tee_right:    "├",
			cross:        "┼",
		},
		quote_border:   "│",
		hr_char:        "─",
		spinner_frames: &["⠋"],
	}
}

#[test]
fn test_select_list_theme() {
	let theme = Theme::dark_with_mode(ColorMode::TrueColor);
	let symbols = test_symbols();
	let sl_theme = theme.select_list_theme(symbols);
	let selected = sl_theme.selected_text.apply("item");
	assert!(selected.contains("item"));
}

