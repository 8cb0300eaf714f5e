use rho_tui::components::editor::editing::{
	add_new_line, delete_to_end_of_line, delete_to_start_of_line, delete_word_backwards,
	delete_word_forwards, delete_yanked_text, handle_backspace, handle_forward_delete,
	insert_character, insert_text_at_cursor, set_text_internal,
};
use rho_tui::components::editor::history::{History, MAX_HISTORY};
use rho_tui::components::editor::layout::{is_punctuation_grapheme, is_whitespace_grapheme};
use rho_tui::components::editor::motion::{
	is_on_first_visual_line, is_on_last_visual_line, jump_to_char, move_cursor, move_to_line_end,
	move_to_line_start, move_word_backwards, move_word_forwards,
};
use rho_tui::components::editor::state::{EditorState, VisualLine};




fn make_state_from_text(text: &str) -> EditorState {
	let mut state = EditorState::default();
	set_text_internal(&mut state, text);
	state
}

#[test]
fn test_insert_character() {
	let mut state =
		EditorState { lines: vec!["abc".into()], cursor_line: 0, cursor_col: 1 };
	insert_character(&mut state, "X");
	assert_eq!(state.lines[0], "aXbc");
	assert_eq!(state.cursor_col, 2);
}

#[test]
fn test_insert_emoji() {
	let mut state =
		EditorState { lines: vec!["ab".into()], cursor_line: 0, cursor_col: 1 };
	insert_character(&mut state, "😀");
	assert_eq!(state.lines[0], "a😀b");
	assert_eq!(state.cursor_col, 1 + "😀".len());
}

#[test]
fn test_backspace_basic() {
	let mut state =
		EditorState { lines: vec!["abc".into()], cursor_line: 0, cursor_col: 2 };
	assert!(handle_backspace(&mut state));
	assert_eq!(state.lines[0], "ac");
	assert_eq!(state.cursor_col, 1);
}

#[test]
fn editing_test_backspace_emoji() {
	let mut state = make_state_from_text("😀👍");
	// cursor at end
	assert!(handle_backspace(&mut state));
	assert_eq!(state.lines[0], "😀");
}

#[test]
fn test_backspace_merges_lines() {
	let mut state = EditorState {
		lines:       vec!["abc".into(), "def".into()],
		cursor_line: 1,
		cursor_col:  0,
	};
	assert!(handle_backspace(&mut state));
	assert_eq!(state.lines, vec!["abcdef"]);
	assert_eq!(state.cursor_line, 0);
	assert_eq!(state.cursor_col, 3);
}

#[test]
fn test_forward_delete() {
	let mut state =
		EditorState { lines: vec!["abc".into()], cursor_line: 0, cursor_col: 1 };
	assert!(handle_forward_delete(&mut state));
	assert_eq!(state.lines[0], "ac");
	assert_eq!(state.cursor_col, 1);
}

#[test]
fn test_forward_delete_merges_lines() {
	let mut state = EditorState {
		lines:       vec!["abc".into(), "def".into()],
		cursor_line: 0,
		cursor_col:  3,
	};
	assert!(handle_forward_delete(&mut state));
	assert_eq!(state.lines, vec!["abcdef"]);
}

#[test]
fn test_add_new_line() {
	let mut state =
		EditorState { lines: vec!["abcdef".into()], cursor_line: 0, cursor_col: 3 };
	add_new_line(&mut state);
	assert_eq!(state.lines, vec!["abc", "def"]);
	assert_eq!(state.cursor_line, 1);
	assert_eq!(state.cursor_col, 0);
}

#[test]
fn test_delete_to_end_of_line() {
	let mut state =
		EditorState { lines: vec!["hello world".into()], cursor_line: 0, cursor_col: 5 };
	let deleted = delete_to_end_of_line(&mut state);
	assert_eq!(deleted, " world");
	assert_eq!(state.lines[0], "hello");
}

#[test]
fn test_delete_to_start_of_line() {
	let mut state =
		EditorState { lines: vec!["hello world".into()], cursor_line: 0, cursor_col: 5 };
	let deleted = delete_to_start_of_line(&mut state);
	assert_eq!(deleted, "hello");
	assert_eq!(state.lines[0], " world");
	assert_eq!(state.cursor_col, 0);
}

#[test]
fn test_delete_word_backwards() {
	let mut state = make_state_from_text("foo bar baz");
	let deleted = delete_word_backwards(&mut state);
	assert_eq!(deleted, "baz");
	assert_eq!(state.text(), "foo bar ");
}

#[test]
fn editing_test_delete_word_backwards_trailing_space() {
	let mut state = make_state_from_text("foo bar   ");
	let deleted = delete_word_backwards(&mut state);
	assert_eq!(deleted, "bar   ");
	assert_eq!(state.text(), "foo ");
}

#[test]
fn test_delete_word_forwards() {
	let mut state =
		EditorState { lines: vec!["foo bar baz".into()], cursor_line: 0, cursor_col: 0 };
	let deleted = delete_word_forwards(&mut state);
	assert_eq!(deleted, "foo");
	assert_eq!(state.text(), " bar baz");
}

#[test]
fn test_insert_text_at_cursor_single_line() {
	let mut state =
		EditorState { lines: vec!["ac".into()], cursor_line: 0, cursor_col: 1 };
	insert_text_at_cursor(&mut state, "b");
	assert_eq!(state.text(), "abc");
	assert_eq!(state.cursor_col, 2);
}

#[test]
fn test_insert_text_at_cursor_multi_line() {
	let mut state =
		EditorState { lines: vec!["ac".into()], cursor_line: 0, cursor_col: 1 };
	insert_text_at_cursor(&mut state, "X\nY");
	assert_eq!(state.text(), "aX\nYc");
	assert_eq!(state.cursor_line, 1);
	assert_eq!(state.cursor_col, 1);
}

#[test]
fn test_set_text_internal() {
	let mut state = EditorState::default();
	set_text_internal(&mut state, "hello\nworld");
	assert_eq!(state.lines, vec!["hello", "world"]);
	assert_eq!(state.cursor_line, 1);
	assert_eq!(state.cursor_col, 5);
}

#[test]
fn test_set_text_internal_empty() {
	let mut state = EditorState::default();
	set_text_internal(&mut state, "");
	assert_eq!(state.lines, vec![""]);
	assert_eq!(state.cursor_line, 0);
	assert_eq!(state.cursor_col, 0);
}

#[test]
fn test_delete_yanked_text_single_line() {
	let mut state =
		EditorState { lines: vec!["hello world".into()], cursor_line: 0, cursor_col: 11 };
	assert!(delete_yanked_text(&mut state, "world"));
	assert_eq!(state.text(), "hello ");
	assert_eq!(state.cursor_col, 6);
}

#[test]
fn test_delete_yanked_text_multi_line() {
	let mut state = EditorState {
		lines:       vec!["aX".into(), "Yc".into()],
		cursor_line: 1,
		cursor_col:  1,
	};
	assert!(delete_yanked_text(&mut state, "X\nY"));
	assert_eq!(state.text(), "ac");
	assert_eq!(state.cursor_line, 0);
	assert_eq!(state.cursor_col, 1);
}





#[test]
fn test_add_and_navigate() {
	let mut hist = History::new();
	hist.add("first");
	hist.add("second");
	hist.add("third");

	// Navigate up (older)
	assert_eq!(hist.navigate(-1), Ok(Some("third".into())));
	assert_eq!(hist.navigate(-1), Ok(Some("second".into())));
	assert_eq!(hist.navigate(-1), Ok(Some("first".into())));
	// Can't go further
	assert_eq!(hist.navigate(-1), Err(()));

	// Navigate back down (newer)
	assert_eq!(hist.navigate(1), Ok(Some("second".into())));
	assert_eq!(hist.navigate(1), Ok(Some("third".into())));
	// Return to current
	assert_eq!(hist.navigate(1), Ok(None));
}

#[test]
fn test_empty_history() {
	let mut hist = History::new();
	assert_eq!(hist.navigate(-1), Err(()));
}

#[test]
fn test_skip_empty_and_whitespace() {
	let mut hist = History::new();
	hist.add("");
	hist.add("   ");
	hist.add("valid");

	assert_eq!(hist.entries().len(), 1);
	assert_eq!(hist.navigate(-1), Ok(Some("valid".into())));
}

#[test]
fn test_deduplicate_consecutive() {
	let mut hist = History::new();
	hist.add("same");
	hist.add("same");
	hist.add("same");
	assert_eq!(hist.entries().len(), 1);
}

#[test]
fn test_allow_non_consecutive_duplicates() {
	let mut hist = History::new();
	hist.add("first");
	hist.add("second");
	hist.add("first");
	assert_eq!(hist.entries().len(), 3);
}

#[test]
fn test_limit_size() {
	let mut hist = History::new();
	for i in 0..105 {
		hist.add(&format!("prompt {i}"));
	}
	assert_eq!(hist.entries().len(), MAX_HISTORY);
	// Most recent should be "prompt 104"
	assert_eq!(hist.entries()[0], "prompt 104");
	// Oldest should be "prompt 5"
	assert_eq!(hist.entries()[MAX_HISTORY - 1], "prompt 5");
}

#[test]
fn test_reset() {
	let mut hist = History::new();
	hist.add("entry");
	hist.navigate(-1).unwrap();
	assert!(hist.is_browsing());
	hist.reset();
	assert!(!hist.is_browsing());
}





#[test]
fn test_default_state() {
	let state = EditorState::default();
	assert!(state.is_empty());
	assert_eq!(state.text(), "");
	assert_eq!(state.cursor_line, 0);
	assert_eq!(state.cursor_col, 0);
}

#[test]
fn test_state_text() {
	let state = EditorState {
		lines:       vec!["hello".into(), "world".into()],
		cursor_line: 1,
		cursor_col:  5,
	};
	assert_eq!(state.text(), "hello\nworld");
	assert!(!state.is_empty());
}

#[test]
fn test_current_line() {
	let state = EditorState {
		lines:       vec!["first".into(), "second".into()],
		cursor_line: 1,
		cursor_col:  3,
	};
	assert_eq!(state.current_line(), "second");
	assert_eq!(state.text_before_cursor(), "sec");
	assert_eq!(state.text_after_cursor(), "ond");
}





fn make_state(text: &str) -> EditorState {
	let lines: Vec<String> = text.split('\n').map(String::from).collect();
	let cursor_line = lines.len() - 1;
	let cursor_col = lines.last().map_or(0, String::len);
	EditorState { lines, cursor_line, cursor_col }
}

#[test]
fn test_move_word_backwards() {
	let mut state =
		EditorState { lines: vec!["foo bar baz".into()], cursor_line: 0, cursor_col: 11 };
	let mut pref = None;

	move_word_backwards(&mut state, &mut pref);
	assert_eq!(state.cursor_col, 8); // before "baz"

	move_word_backwards(&mut state, &mut pref);
	assert_eq!(state.cursor_col, 4); // before "bar"

	move_word_backwards(&mut state, &mut pref);
	assert_eq!(state.cursor_col, 0); // before "foo"
}

#[test]
fn test_move_word_forwards() {
	let mut state =
		EditorState { lines: vec!["foo bar baz".into()], cursor_line: 0, cursor_col: 0 };
	let mut pref = None;

	move_word_forwards(&mut state, &mut pref);
	assert_eq!(state.cursor_col, 3); // after "foo"

	move_word_forwards(&mut state, &mut pref);
	assert_eq!(state.cursor_col, 7); // after "bar"

	move_word_forwards(&mut state, &mut pref);
	assert_eq!(state.cursor_col, 11); // after "baz"
}

#[test]
fn test_move_word_backwards_with_punctuation() {
	let mut state =
		EditorState { lines: vec!["foo bar...".into()], cursor_line: 0, cursor_col: 10 };
	let mut pref = None;

	move_word_backwards(&mut state, &mut pref);
	assert_eq!(state.cursor_col, 7); // before "..."

	move_word_backwards(&mut state, &mut pref);
	assert_eq!(state.cursor_col, 4); // before "bar"
}

#[test]
fn test_move_word_forwards_with_punctuation() {
	let mut state =
		EditorState { lines: vec!["foo bar... baz".into()], cursor_line: 0, cursor_col: 4 };
	let mut pref = None;

	move_word_forwards(&mut state, &mut pref);
	assert_eq!(state.cursor_col, 7); // after "bar"

	move_word_forwards(&mut state, &mut pref);
	assert_eq!(state.cursor_col, 10); // after "..."
}

#[test]
fn test_move_word_backwards_line_boundary() {
	let mut state = EditorState {
		lines:       vec!["foo".into(), "bar".into()],
		cursor_line: 1,
		cursor_col:  0,
	};
	let mut pref = None;

	move_word_backwards(&mut state, &mut pref);
	assert_eq!(state.cursor_line, 0);
	assert_eq!(state.cursor_col, 3);
}

#[test]
fn test_move_word_forwards_line_boundary() {
	let mut state = EditorState {
		lines:       vec!["foo".into(), "bar".into()],
		cursor_line: 0,
		cursor_col:  3,
	};
	let mut pref = None;

	move_word_forwards(&mut state, &mut pref);
	assert_eq!(state.cursor_line, 1);
	assert_eq!(state.cursor_col, 0);
}

#[test]
fn test_jump_to_char_forward() {
	let mut state =
		EditorState { lines: vec!["hello world".into()], cursor_line: 0, cursor_col: 0 };
	let mut pref = None;

	jump_to_char(&mut state, "w", true, &mut pref);
	assert_eq!(state.cursor_col, 6);
}

#[test]
fn test_jump_to_char_backward() {
	let mut state =
		EditorState { lines: vec!["hello world".into()], cursor_line: 0, cursor_col: 10 };
	let mut pref = None;

	jump_to_char(&mut state, "h", false, &mut pref);
	assert_eq!(state.cursor_col, 0);
}

#[test]
fn jump_backward_finds_char_just_left_of_cursor() {
	let mut state = EditorState { lines: vec!["ab".into()], cursor_line: 0, cursor_col: 1 };
	let mut pref = None;

	jump_to_char(&mut state, "a", false, &mut pref);
	assert_eq!(state.cursor_col, 0);
}

#[test]
fn jump_backward_skips_char_under_cursor() {
	let mut state = EditorState { lines: vec!["abab".into()], cursor_line: 0, cursor_col: 2 };
	let mut pref = None;

	// The "a" under the cursor is skipped; the one at 0 is found.
	jump_to_char(&mut state, "a", false, &mut pref);
	assert_eq!(state.cursor_col, 0);
}

#[test]
fn jump_backward_crosses_lines() {
	let mut state =
		EditorState { lines: vec!["xy".into(), "ab".into()], cursor_line: 1, cursor_col: 0 };
	let mut pref = None;

	jump_to_char(&mut state, "y", false, &mut pref);
	assert_eq!((state.cursor_line, state.cursor_col), (0, 1));
}

#[test]
fn test_move_to_line_start_end() {
	let mut state =
		EditorState { lines: vec!["hello".into()], cursor_line: 0, cursor_col: 3 };
	let mut pref = None;

	move_to_line_start(&mut state, &mut pref);
	assert_eq!(state.cursor_col, 0);

	move_to_line_end(&mut state, &mut pref);
	assert_eq!(state.cursor_col, 5);
}


#[test]
fn test_is_whitespace() {
	assert!(is_whitespace_grapheme(" "));
	assert!(is_whitespace_grapheme("\t"));
	assert!(!is_whitespace_grapheme("a"));
	assert!(!is_whitespace_grapheme("!"));
}

#[test]
fn test_is_punctuation() {
	assert!(is_punctuation_grapheme("."));
	assert!(is_punctuation_grapheme("!"));
	assert!(is_punctuation_grapheme("("));
	assert!(!is_punctuation_grapheme("a"));
	assert!(!is_punctuation_grapheme(" "));
}


/// The visual line map at width 80 for lines that fit: one segment per line.
fn visual_map(state: &EditorState) -> Vec<VisualLine> {
	state
		.lines
		.iter()
		.enumerate()
		.map(|(i, l)| VisualLine { logical_line: i, start_col: 0, length: l.len() })
		.collect()
}

fn step(state: &mut EditorState, dl: i32, dc: i32, pref: &mut Option<usize>) {
	let map = visual_map(state);
	move_cursor(state, dl, dc, &map, pref);
}

#[test]
fn test_move_right_grapheme() {
	let mut state = EditorState { lines: vec!["hello".into()], cursor_line: 0, cursor_col: 0 };
	let mut pref = None;
	step(&mut state, 0, 1, &mut pref);
	assert_eq!(state.cursor_col, 1);
}

#[test]
fn test_move_left_grapheme() {
	let mut state = EditorState { lines: vec!["hello".into()], cursor_line: 0, cursor_col: 3 };
	let mut pref = None;
	step(&mut state, 0, -1, &mut pref);
	assert_eq!(state.cursor_col, 2);
}

#[test]
fn test_move_right_wraps_line() {
	let mut state =
		EditorState { lines: vec!["ab".into(), "cd".into()], cursor_line: 0, cursor_col: 2 };
	let mut pref = None;
	step(&mut state, 0, 1, &mut pref);
	assert_eq!(state.cursor_line, 1);
	assert_eq!(state.cursor_col, 0);
}

#[test]
fn test_move_left_wraps_line() {
	let mut state =
		EditorState { lines: vec!["ab".into(), "cd".into()], cursor_line: 1, cursor_col: 0 };
	let mut pref = None;
	step(&mut state, 0, -1, &mut pref);
	assert_eq!(state.cursor_line, 0);
	assert_eq!(state.cursor_col, 2);
}

#[test]
fn test_move_up_down_simple() {
	let mut state = EditorState {
		lines:       vec!["hello".into(), "world".into()],
		cursor_line: 0,
		cursor_col:  3,
	};
	let mut pref = None;
	// Down
	step(&mut state, 1, 0, &mut pref);
	assert_eq!(state.cursor_line, 1);
	assert_eq!(state.cursor_col, 3);
	// Up
	step(&mut state, -1, 0, &mut pref);
	assert_eq!(state.cursor_line, 0);
	assert_eq!(state.cursor_col, 3);
}

fn make_state_at_end(text: &str) -> EditorState {
	let lines: Vec<String> = text.split('\n').map(String::from).collect();
	let cursor_line = lines.len() - 1;
	let cursor_col = lines.last().map_or(0, String::len);
	EditorState { lines, cursor_line, cursor_col }
}

#[test]
fn test_sticky_column_through_short_line() {
	let mut state = make_state_at_end("2222222222x222\n\n1111111111_111111111111");
	// Go to line 2, col 10
	state.cursor_line = 2;
	state.cursor_col = 10;
	let mut pref = None;

	// Up to empty line → col 0 (clamped)
	step(&mut state, -1, 0, &mut pref);
	assert_eq!(state.cursor_line, 1);
	assert_eq!(state.cursor_col, 0);
	assert!(pref.is_some()); // Sticky should be set

	// Up to line 0 → col 10 (restored)
	step(&mut state, -1, 0, &mut pref);
	assert_eq!(state.cursor_line, 0);
	assert_eq!(state.cursor_col, 10);
	assert!(pref.is_none()); // Sticky cleared after restoring
}

#[test]
fn test_sticky_column_reset_on_horizontal() {
	let mut state = make_state_at_end("1234567890\n\n1234567890");
	state.cursor_line = 2;
	state.cursor_col = 5;
	let mut pref = None;

	// Up through empty line
	step(&mut state, -1, 0, &mut pref);
	step(&mut state, -1, 0, &mut pref);
	assert_eq!(state.cursor_col, 5);

	// Left resets sticky
	step(&mut state, 0, -1, &mut pref);
	assert_eq!(state.cursor_col, 4);
	assert!(pref.is_none());

	// Down twice — uses 4 (not 5)
	step(&mut state, 1, 0, &mut pref);
	step(&mut state, 1, 0, &mut pref);
	assert_eq!(state.cursor_col, 4);
}

#[test]
fn test_multiple_consecutive_up_down() {
	let mut state = make_state_at_end("1234567890\nab\ncd\nef\n1234567890");
	// Start at line 4, col 7
	state.cursor_line = 4;
	state.cursor_col = 7;
	let mut pref = None;

	// Move up multiple times through short lines
	step(&mut state, -1, 0, &mut pref); // line 3, col 2 (clamped)
	step(&mut state, -1, 0, &mut pref); // line 2, col 2 (clamped)
	step(&mut state, -1, 0, &mut pref); // line 1, col 2 (clamped)
	step(&mut state, -1, 0, &mut pref); // line 0, col 7 (restored)
	assert_eq!(state.cursor_line, 0);
	assert_eq!(state.cursor_col, 7);

	// Move down back through short lines
	step(&mut state, 1, 0, &mut pref);
	step(&mut state, 1, 0, &mut pref);
	step(&mut state, 1, 0, &mut pref);
	step(&mut state, 1, 0, &mut pref);
	assert_eq!(state.cursor_line, 4);
	assert_eq!(state.cursor_col, 7);
}

#[test]
fn visual_line_edges_on_a_wrapped_line() {
	// "hello world" wrapped into two segments of one logical line.
	let state = EditorState { lines: vec!["hello world".into()], cursor_line: 0, cursor_col: 3 };
	let map = vec![
		VisualLine { logical_line: 0, start_col: 0, length: 6 },
		VisualLine { logical_line: 0, start_col: 6, length: 5 },
	];
	assert!(is_on_first_visual_line(&state, &map));
	assert!(!is_on_last_visual_line(&state, &map));
	let mut pref = None;
	let mut s = state.clone();
	move_cursor(&mut s, 1, 0, &map, &mut pref);
	assert_eq!((s.cursor_line, s.cursor_col), (0, 9));
	assert!(is_on_last_visual_line(&s, &map));
}

#[test]
fn delete_yanked_undoes_one_line_insert() {
	let mut state = EditorState { lines: vec!["ac".into(), "z".into()], cursor_line: 0, cursor_col: 1 };
	insert_text_at_cursor(&mut state, "XY");
	assert_eq!(state.lines, vec!["aXYc".to_string(), "z".to_string()]);
	assert_eq!(state.cursor_col, 3);
	assert!(delete_yanked_text(&mut state, "XY"));
	assert_eq!(state.lines, vec!["ac".to_string(), "z".to_string()]);
	assert_eq!((state.cursor_line, state.cursor_col), (0, 1));
}

#[test]
fn delete_yanked_undoes_multi_line_insert() {
	let mut state = EditorState { lines: vec!["ac".into()], cursor_line: 0, cursor_col: 1 };
	insert_text_at_cursor(&mut state, "X\nY");
	assert_eq!(state.lines, vec!["aX".to_string(), "Yc".to_string()]);
	assert_eq!((state.cursor_line, state.cursor_col), (1, 1));
	assert!(delete_yanked_text(&mut state, "X\nY"));
	assert_eq!(state.lines, vec!["ac".to_string()]);
	assert_eq!((state.cursor_line, state.cursor_col), (0, 1));
}
