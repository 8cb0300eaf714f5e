use rho_tui::component::InputResult;
use rho_tui::components::autocomplete::CompletionResult;
use rho_tui::components::editor::state::VisualLine;
use rho_tui::components::editor::{
	content_width, layout_width, AutocompleteProvider, AutocompleteSuggestions, Editor,
};
use rho_tui::components::select_list::{SelectItem, SelectListTheme};
use rho_tui::style::Style;
use rho_tui::symbols::{BoxSymbols, RoundedBoxSymbols, SymbolTheme};

struct NoProvider;

impl AutocompleteProvider for NoProvider {
	fn get_suggestions(
		&mut self,
		_lines: &[String],
		_cursor_line: usize,
		_cursor_col: usize,
	) -> Option<AutocompleteSuggestions> {
		None
	}

	fn apply_completion(
		&self,
		lines: &[String],
		cursor_line: usize,
		cursor_col: usize,
		_item: &SelectItem,
		_prefix: &str,
	) -> CompletionResult {
		CompletionResult { lines: lines.to_vec(), cursor_line, cursor_col }
	}
}

/// Completes slash commands from a fixed list.
struct Commands;

impl AutocompleteProvider for Commands {
	fn get_suggestions(
		&mut self,
		lines: &[String],
		cursor_line: usize,
		cursor_col: usize,
	) -> Option<AutocompleteSuggestions> {
		let before = &lines[cursor_line][..cursor_col];
		if !before.starts_with('/') {
			return None;
		}
		let items: Vec<SelectItem> = ["/help", "/history"]
			.iter()
			.filter(|c| c.starts_with(before))
			.map(|c| SelectItem { value: (*c).to_owned(), label: (*c).to_owned(), description: None, hint: None })
			.collect();
		if items.is_empty() {
			None
		} else {
			Some(AutocompleteSuggestions { items, prefix: before.to_owned() })
		}
	}

	fn apply_completion(
		&self,
		lines: &[String],
		cursor_line: usize,
		cursor_col: usize,
		item: &SelectItem,
		prefix: &str,
	) -> CompletionResult {
		let line = &lines[cursor_line];
		let start = cursor_col - prefix.len();
		let new_line = format!("{}{}{}", &line[..start], item.value, &line[cursor_col..]);
		let mut out = lines.to_vec();
		out[cursor_line] = new_line;
		CompletionResult { lines: out, cursor_line, cursor_col: start + item.value.len() }
	}
}

fn symbols() -> SymbolTheme {
	SymbolTheme {
		cursor:         ">",
		input_cursor:   "|",
		box_round:      RoundedBoxSymbols {
			top_left:     "╭",
			top_right:    "╮",
			bottom_left:  "╰",
			bottom_right: "╯",
			horizontal:   "─",
			vertical:     "│",
		},
		box_sharp:      BoxSymbols {
			top_left:     "┌",
			top_right:    "┐",
			bottom_left:  "└",
			bottom_right: "┘",
			horizontal:   "─",
			vertical:     "│",
			tee_down:     "┬",
			tee_up:       "┴",
			tee_left:     "┤",
			tee_right:    "├",
			cross:        "┼",
		},
		table:          BoxSymbols {
			top_left:     "┌",
			top_right:    "┐",
			bottom_left:  "└",
			bottom_right: "┘",
			horizontal:   "─",
			vertical:     "│",
			tee_down:     "┬",
			tee_up:       "┴",
			tee_left:     "┤",
			tee_right:    "├",
			cross:        "┼",
		},
		quote_border:   "│",
		hr_char:        "─",
		spinner_frames: &["⠋"],
	}
}

fn plain_select_list_theme() -> SelectListTheme {
	SelectListTheme {
		selected_prefix: Style::plain(),
		selected_text:   Style::plain(),
		description:     Style::plain(),
		scroll_info:     Style::plain(),
		no_match:        Style::plain(),
		symbols:         symbols(),
	}
}

fn make_editor() -> Editor<NoProvider> {
	Editor::new(Style::plain(), plain_select_list_theme(), symbols(), Some(2), None)
}

/// One visual line per text line (the test texts never wrap).
fn visual_map(lines: &[String]) -> Vec<VisualLine> {
	lines
		.iter()
		.enumerate()
		.map(|(i, l)| VisualLine { logical_line: i, start_col: 0, length: l.len() })
		.collect()
}

/// Feed `data` as terminal input, then any input left after a paste.
fn input<P: AutocompleteProvider>(editor: &mut Editor<P>, data: &str) -> InputResult {
	let map = visual_map(&editor.get_lines());
	let result = editor.handle_input(data, &map);
	while let Some(rest) = editor.take_pending_input() {
		let map = visual_map(&editor.get_lines());
		editor.handle_input(&rest, &map);
	}
	result
}

// ── History navigation ────────────────────────────────────────────

#[test]
fn test_history_empty() {
	let mut editor = make_editor();
	input(&mut editor, "\x1b[A"); // Up
	assert_eq!(editor.get_text(), "");
}

#[test]
fn test_history_navigate_up() {
	let mut editor = make_editor();
	editor.add_to_history("first prompt");
	editor.add_to_history("second prompt");

	input(&mut editor, "\x1b[A"); // Up
	assert_eq!(editor.get_text(), "second prompt");
}

#[test]
fn test_history_cycle() {
	let mut editor = make_editor();
	editor.add_to_history("first");
	editor.add_to_history("second");
	editor.add_to_history("third");

	input(&mut editor, "\x1b[A");
	assert_eq!(editor.get_text(), "third");
	input(&mut editor, "\x1b[A");
	assert_eq!(editor.get_text(), "second");
	input(&mut editor, "\x1b[A");
	assert_eq!(editor.get_text(), "first");
	input(&mut editor, "\x1b[A"); // stays at first
	assert_eq!(editor.get_text(), "first");
}

#[test]
fn test_history_down_returns_empty() {
	let mut editor = make_editor();
	editor.add_to_history("prompt");
	input(&mut editor, "\x1b[A"); // Up
	assert_eq!(editor.get_text(), "prompt");
	input(&mut editor, "\x1b[B"); // Down
	assert_eq!(editor.get_text(), "");
}

#[test]
fn test_history_exit_on_typing() {
	let mut editor = make_editor();
	editor.add_to_history("old prompt");
	input(&mut editor, "\x1b[A"); // Up
	input(&mut editor, "x");
	assert_eq!(editor.get_text(), "old promptx");
}

#[test]
fn test_history_exit_on_set_text() {
	let mut editor = make_editor();
	editor.add_to_history("first");
	editor.add_to_history("second");
	input(&mut editor, "\x1b[A"); // shows "second"
	editor.set_text("");
	input(&mut editor, "\x1b[A");
	assert_eq!(editor.get_text(), "second");
}

#[test]
fn test_history_no_empty() {
	let mut editor = make_editor();
	editor.add_to_history("");
	editor.add_to_history("   ");
	editor.add_to_history("valid");
	input(&mut editor, "\x1b[A");
	assert_eq!(editor.get_text(), "valid");
	input(&mut editor, "\x1b[A");
	assert_eq!(editor.get_text(), "valid"); // no more entries
}

#[test]
fn test_history_no_consecutive_dupes() {
	let mut editor = make_editor();
	editor.add_to_history("same");
	editor.add_to_history("same");
	editor.add_to_history("same");
	input(&mut editor, "\x1b[A");
	assert_eq!(editor.get_text(), "same");
	input(&mut editor, "\x1b[A"); // stays
	assert_eq!(editor.get_text(), "same");
}

#[test]
fn test_history_non_consecutive_dupes_allowed() {
	let mut editor = make_editor();
	editor.add_to_history("first");
	editor.add_to_history("second");
	editor.add_to_history("first");
	input(&mut editor, "\x1b[A");
	assert_eq!(editor.get_text(), "first");
	input(&mut editor, "\x1b[A");
	assert_eq!(editor.get_text(), "second");
	input(&mut editor, "\x1b[A"); // the older "first"
	assert_eq!(editor.get_text(), "first");
}

// ── State accessors ───────────────────────────────────────────────

#[test]
fn test_cursor_position() {
	let mut editor = make_editor();
	assert_eq!(editor.get_cursor(), (0, 0));
	input(&mut editor, "a");
	input(&mut editor, "b");
	input(&mut editor, "c");
	assert_eq!(editor.get_cursor(), (0, 3));
	input(&mut editor, "\x1b[D"); // Left
	assert_eq!(editor.get_cursor(), (0, 2));
}

#[test]
fn test_get_lines_copy() {
	let mut editor = make_editor();
	editor.set_text("a\nb");
	let lines = editor.get_lines();
	assert_eq!(lines, vec!["a", "b"]);
}

// ── Unicode editing ───────────────────────────────────────────────

#[test]
fn test_insert_mixed_unicode() {
	let mut editor = make_editor();
	for ch in ["H", "e", "l", "l", "o", " ", "ä", "ö", "ü", " ", "😀"] {
		input(&mut editor, ch);
	}
	assert_eq!(editor.get_text(), "Hello äöü 😀");
}

#[test]
fn test_backspace_umlaut() {
	let mut editor = make_editor();
	input(&mut editor, "ä");
	input(&mut editor, "ö");
	input(&mut editor, "ü");
	input(&mut editor, "\x7f"); // Backspace
	assert_eq!(editor.get_text(), "äö");
}

#[test]
fn mod_test_backspace_emoji() {
	let mut editor = make_editor();
	input(&mut editor, "😀");
	input(&mut editor, "👍");
	input(&mut editor, "\x7f"); // Backspace
	assert_eq!(editor.get_text(), "😀");
}

#[test]
fn test_cursor_move_over_umlaut() {
	let mut editor = make_editor();
	input(&mut editor, "ä");
	input(&mut editor, "ö");
	input(&mut editor, "ü");
	input(&mut editor, "\x1b[D"); // Left
	input(&mut editor, "\x1b[D"); // Left
	input(&mut editor, "x");
	assert_eq!(editor.get_text(), "äxöü");
}

#[test]
fn test_cursor_move_over_emoji() {
	let mut editor = make_editor();
	input(&mut editor, "😀");
	input(&mut editor, "👍");
	input(&mut editor, "🎉");
	input(&mut editor, "\x1b[D"); // Left over 🎉
	input(&mut editor, "\x1b[D"); // Left over 👍
	input(&mut editor, "x");
	assert_eq!(editor.get_text(), "😀x👍🎉");
}

#[test]
fn test_unicode_across_lines() {
	let mut editor = make_editor();
	input(&mut editor, "ä");
	input(&mut editor, "ö");
	input(&mut editor, "ü");
	editor.set_text("äöü\nÄÖÜ");
	assert_eq!(editor.get_text(), "äöü\nÄÖÜ");
}

#[test]
fn test_set_text_unicode() {
	let mut editor = make_editor();
	editor.set_text("Hällö Wörld! 😀 äöüÄÖÜß");
	assert_eq!(editor.get_text(), "Hällö Wörld! 😀 äöüÄÖÜß");
}

#[test]
fn test_ctrl_a_insert_at_start() {
	let mut editor = make_editor();
	input(&mut editor, "a");
	input(&mut editor, "b");
	input(&mut editor, "\x01"); // Ctrl+A
	input(&mut editor, "x");
	assert_eq!(editor.get_text(), "xab");
}

#[test]
fn test_delete_word_backwards_basic() {
	let mut editor = make_editor();
	editor.set_text("foo bar baz");
	input(&mut editor, "\x17"); // Ctrl+W
	assert_eq!(editor.get_text(), "foo bar ");
}

#[test]
fn mod_test_delete_word_backwards_trailing_space() {
	let mut editor = make_editor();
	editor.set_text("foo bar   ");
	input(&mut editor, "\x17"); // Ctrl+W
	assert_eq!(editor.get_text(), "foo ");
}

#[test]
fn test_delete_word_backwards_punctuation() {
	let mut editor = make_editor();
	editor.set_text("foo bar...");
	input(&mut editor, "\x17"); // Ctrl+W
	assert_eq!(editor.get_text(), "foo bar");
}

// ── Sticky column ─────────────────────────────────────────────────

#[test]
fn test_sticky_column_up_through_short_line() {
	let mut editor = make_editor();
	editor.set_text("2222222222x222\n\n1111111111_111111111111");

	input(&mut editor, "\x01"); // Ctrl+A
	for _ in 0..10 {
		input(&mut editor, "\x1b[C"); // Right
	}
	assert_eq!(editor.get_cursor(), (2, 10));

	input(&mut editor, "\x1b[A"); // Up to the empty line
	assert_eq!(editor.get_cursor(), (1, 0));

	input(&mut editor, "\x1b[A"); // Up to line 0
	assert_eq!(editor.get_cursor(), (0, 10));
}

#[test]
fn test_sticky_column_down_through_short_line() {
	let mut editor = make_editor();
	editor.set_text("1111111111_111\n\n2222222222x222222222222");

	input(&mut editor, "\x1b[A"); // Up to line 1
	input(&mut editor, "\x1b[A"); // Up to line 0
	input(&mut editor, "\x01"); // Ctrl+A
	for _ in 0..10 {
		input(&mut editor, "\x1b[C"); // Right
	}
	assert_eq!(editor.get_cursor(), (0, 10));

	input(&mut editor, "\x1b[B"); // Down to the empty line
	assert_eq!(editor.get_cursor(), (1, 0));

	input(&mut editor, "\x1b[B"); // Down to line 2
	assert_eq!(editor.get_cursor(), (2, 10));
}

#[test]
fn test_sticky_column_reset_on_left() {
	let mut editor = make_editor();
	editor.set_text("1234567890\n\n1234567890");

	input(&mut editor, "\x01"); // Ctrl+A
	for _ in 0..5 {
		input(&mut editor, "\x1b[C");
	}
	assert_eq!(editor.get_cursor(), (2, 5));

	input(&mut editor, "\x1b[A");
	input(&mut editor, "\x1b[A");
	assert_eq!(editor.get_cursor(), (0, 5));

	input(&mut editor, "\x1b[D"); // Left
	assert_eq!(editor.get_cursor(), (0, 4));

	input(&mut editor, "\x1b[B");
	input(&mut editor, "\x1b[B");
	assert_eq!(editor.get_cursor(), (2, 4));
}

#[test]
fn test_sticky_column_reset_on_typing() {
	let mut editor = make_editor();
	editor.set_text("1234567890\n\n1234567890");

	input(&mut editor, "\x01"); // Ctrl+A
	for _ in 0..8 {
		input(&mut editor, "\x1b[C");
	}

	input(&mut editor, "\x1b[A");
	input(&mut editor, "\x1b[A");
	assert_eq!(editor.get_cursor(), (0, 8));

	input(&mut editor, "X");
	assert_eq!(editor.get_cursor(), (0, 9));

	input(&mut editor, "\x1b[B");
	input(&mut editor, "\x1b[B");
	assert_eq!(editor.get_cursor(), (2, 9));
}

#[test]
fn test_sticky_column_reset_on_backspace() {
	let mut editor = make_editor();
	editor.set_text("1234567890\n\n1234567890");

	input(&mut editor, "\x01"); // Ctrl+A
	for _ in 0..8 {
		input(&mut editor, "\x1b[C");
	}

	input(&mut editor, "\x1b[A");
	input(&mut editor, "\x1b[A");
	assert_eq!(editor.get_cursor(), (0, 8));

	input(&mut editor, "\x7f"); // Backspace
	assert_eq!(editor.get_cursor(), (0, 7));

	input(&mut editor, "\x1b[B");
	input(&mut editor, "\x1b[B");
	assert_eq!(editor.get_cursor(), (2, 7));
}

#[test]
fn test_sticky_column_reset_on_ctrl_a() {
	let mut editor = make_editor();
	editor.set_text("1234567890\n\n1234567890");

	input(&mut editor, "\x01"); // Ctrl+A
	for _ in 0..8 {
		input(&mut editor, "\x1b[C");
	}
	input(&mut editor, "\x1b[A"); // Up sets the sticky column
	input(&mut editor, "\x01"); // Ctrl+A resets it
	assert_eq!(editor.get_cursor(), (1, 0));

	input(&mut editor, "\x1b[A");
	assert_eq!(editor.get_cursor(), (0, 0));
}

#[test]
fn test_sticky_column_reset_on_ctrl_e() {
	let mut editor = make_editor();
	editor.set_text("12345\n\n1234567890");

	input(&mut editor, "\x01"); // Ctrl+A
	for _ in 0..3 {
		input(&mut editor, "\x1b[C");
	}
	input(&mut editor, "\x1b[A");
	input(&mut editor, "\x1b[A");
	assert_eq!(editor.get_cursor(), (0, 3));

	input(&mut editor, "\x05"); // Ctrl+E
	assert_eq!(editor.get_cursor(), (0, 5));

	input(&mut editor, "\x1b[B");
	input(&mut editor, "\x1b[B");
	assert_eq!(editor.get_cursor(), (2, 5));
}

#[test]
fn test_history_limit_100() {
	let mut editor = make_editor();
	for i in 0..105 {
		editor.add_to_history(&format!("prompt {i}"));
	}
	for _ in 0..100 {
		input(&mut editor, "\x1b[A");
	}
	assert_eq!(editor.get_text(), "prompt 5");
	input(&mut editor, "\x1b[A"); // no further
	assert_eq!(editor.get_text(), "prompt 5");
}

#[test]
fn test_word_nav_ctrl_left_right() {
	let mut editor = make_editor();
	editor.set_text("foo bar... baz");

	input(&mut editor, "\x1b[1;5D"); // Ctrl+Left
	assert_eq!(editor.get_cursor(), (0, 11));
	input(&mut editor, "\x1b[1;5D");
	assert_eq!(editor.get_cursor(), (0, 7));
	input(&mut editor, "\x1b[1;5D");
	assert_eq!(editor.get_cursor(), (0, 4));

	input(&mut editor, "\x1b[1;5C"); // Ctrl+Right
	assert_eq!(editor.get_cursor(), (0, 7));
	input(&mut editor, "\x1b[1;5C");
	assert_eq!(editor.get_cursor(), (0, 10));
	input(&mut editor, "\x1b[1;5C");
	assert_eq!(editor.get_cursor(), (0, 14));
}

#[test]
fn test_cursor_uses_content_not_history() {
	let mut editor = make_editor();
	editor.add_to_history("history item");
	editor.set_text("line1\nline2");

	input(&mut editor, "\x1b[A"); // Up moves the cursor
	input(&mut editor, "X");
	assert_eq!(editor.get_text(), "line1X\nline2");
}

// ── Submitting, pasting, killing and undo ─────────────────────────

#[test]
fn test_enter_submits_and_clears() {
	let mut editor = make_editor();
	editor.set_text("hello");
	assert_eq!(input(&mut editor, "\r"), InputResult::Submit("hello".to_owned()));
	assert_eq!(editor.get_text(), "");
	assert_eq!(editor.get_cursor(), (0, 0));
}

#[test]
fn test_enter_on_blank_text_submits_nothing() {
	let mut editor = make_editor();
	editor.set_text("   ");
	assert_eq!(input(&mut editor, "\r"), InputResult::Consumed);
	assert_eq!(editor.get_text(), "");
}

#[test]
fn test_enter_with_submit_disabled() {
	let mut editor = make_editor();
	editor.disable_submit = true;
	editor.set_text("keep");
	assert_eq!(input(&mut editor, "\r"), InputResult::Consumed);
	assert_eq!(editor.get_text(), "keep");
}

#[test]
fn test_shift_enter_breaks_line() {
	let mut editor = make_editor();
	editor.set_text("ab");
	input(&mut editor, "\x1b[D"); // Left
	input(&mut editor, "\x1b[13;2u"); // Shift+Enter
	assert_eq!(editor.get_text(), "a\nb");
	assert_eq!(editor.get_cursor(), (1, 0));
}

#[test]
fn test_alt_enter_reported() {
	let mut editor = make_editor();
	editor.report_alt_enter = true;
	editor.set_text("draft");
	editor.take_events();
	assert_eq!(input(&mut editor, "\x1b\r"), InputResult::Consumed);
	assert_eq!(editor.get_text(), "draft");
	assert_eq!(editor.take_events().alt_enter, Some("draft".to_owned()));
}

#[test]
fn test_ctrl_c_is_ignored() {
	let mut editor = make_editor();
	editor.set_text("x");
	assert_eq!(input(&mut editor, "\x03"), InputResult::Ignored);
	assert_eq!(editor.get_text(), "x");
}

#[test]
fn test_bracketed_paste_small() {
	let mut editor = make_editor();
	input(&mut editor, "\x1b[200~hello world\x1b[201~");
	assert_eq!(editor.get_text(), "hello world");
}

#[test]
fn test_bracketed_paste_in_chunks_then_key() {
	let mut editor = make_editor();
	assert_eq!(input(&mut editor, "\x1b[200~line one\nli"), InputResult::Consumed);
	assert_eq!(editor.get_text(), "");
	input(&mut editor, "ne two\x1b[201~x");
	assert_eq!(editor.get_text(), "line one\nline twox");
}

#[test]
fn test_large_paste_is_folded_and_expanded_on_submit() {
	let mut editor = make_editor();
	let big: String = (0..12).map(|i| format!("row {i}")).collect::<Vec<_>>().join("\n");
	input(&mut editor, &format!("\x1b[200~{big}\x1b[201~"));
	assert_eq!(editor.get_text(), "[paste #1 +12 lines]");
	assert_eq!(editor.get_expanded_text(), big);
	assert_eq!(input(&mut editor, "\r"), InputResult::Submit(big));
}

#[test]
fn test_kill_and_yank() {
	let mut editor = make_editor();
	editor.set_text("hello world");
	input(&mut editor, "\x17"); // Ctrl+W kills "world"
	assert_eq!(editor.get_text(), "hello ");
	input(&mut editor, "\x01"); // Ctrl+A
	input(&mut editor, "\x19"); // Ctrl+Y
	assert_eq!(editor.get_text(), "worldhello ");
}

#[test]
fn test_undo_restores_text() {
	let mut editor = make_editor();
	input(&mut editor, "a");
	input(&mut editor, "b");
	input(&mut editor, "\x1f"); // Ctrl+- (undo)
	assert_eq!(editor.get_text(), "a");
	input(&mut editor, "\x1f");
	assert_eq!(editor.get_text(), "");
}

#[test]
fn test_jump_forward_to_char() {
	let mut editor = make_editor();
	editor.set_text("abcabc");
	input(&mut editor, "\x01"); // Ctrl+A
	input(&mut editor, "\x1d"); // Ctrl+] starts a forward jump
	input(&mut editor, "c");
	assert_eq!(editor.get_cursor(), (0, 2));
}

#[test]
fn test_slash_command_completed_and_submitted_on_enter() {
	let mut editor: Editor<Commands> =
		Editor::new(Style::plain(), plain_select_list_theme(), symbols(), Some(2), None);
	editor.set_autocomplete_provider(Commands);
	input(&mut editor, "/");
	input(&mut editor, "h");
	input(&mut editor, "e");
	assert!(editor.is_showing_autocomplete());
	assert_eq!(input(&mut editor, "\r"), InputResult::Submit("/help".to_owned()));
	assert!(!editor.is_showing_autocomplete());
}

#[test]
fn test_escape_dismisses_autocomplete() {
	let mut editor: Editor<Commands> =
		Editor::new(Style::plain(), plain_select_list_theme(), symbols(), Some(2), None);
	editor.set_autocomplete_provider(Commands);
	input(&mut editor, "/");
	assert!(editor.is_showing_autocomplete());
	input(&mut editor, "\x1b");
	assert!(!editor.is_showing_autocomplete());
	assert!(editor.take_events().autocomplete_cancelled);
	assert_eq!(editor.get_text(), "/");
}

#[test]
fn test_scroll_follows_cursor() {
	let mut editor = make_editor();
	editor.set_max_height(Some(5));
	editor.set_text("1\n2\n3\n4\n5\n6\n7\n8");
	let map = visual_map(&editor.get_lines());
	let height = editor.get_visible_content_height(map.len());
	assert_eq!(height, 3);
	editor.update_scroll_offset(&map, map.len(), height);
	assert_eq!(editor.get_scroll_offset(), 5);
	for _ in 0..7 {
		input(&mut editor, "\x1b[A");
	}
	let map = visual_map(&editor.get_lines());
	editor.update_scroll_offset(&map, map.len(), height);
	assert_eq!(editor.get_scroll_offset(), 0);
}

#[test]
fn test_layout_widths() {
	assert_eq!(content_width(80, 2), 74);
	assert_eq!(layout_width(80, 2), 74);
	assert_eq!(layout_width(80, 0), 77);
	assert_eq!(layout_width(3, 2), 1);
	let editor = make_editor();
	assert_eq!(editor.get_editor_padding_x(), 2);
}
