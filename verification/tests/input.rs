use rho_tui::component::InputResult;
use rho_tui::components::input::{
	find_grapheme_boundary, find_grapheme_boundary_from_end, Input, InputEvent,
};

#[test]
fn test_input_initial_state() {
	let input = Input::new();
	assert_eq!(input.value(), "");
	assert_eq!(input.cursor(), 0);
}

#[test]
fn test_input_set_value() {
	let mut input = Input::new();
	input.set_value("hello");
	assert_eq!(input.value(), "hello");
	// Cursor should be clamped
	input.set_cursor(10);
	input.set_value("hi");
	assert_eq!(input.cursor(), 2);
}

#[test]
fn test_input_insert_text() {
	let mut input = Input::new();
	input.insert_text("hello");
	assert_eq!(input.value(), "hello");
	assert_eq!(input.cursor(), 5);

	input.insert_text(" world");
	assert_eq!(input.value(), "hello world");
	assert_eq!(input.cursor(), 11);
}

#[test]
fn test_input_insert_at_cursor() {
	let mut input = Input::new();
	input.insert_text("helloworld");
	input.set_cursor(5);
	input.insert_text(" ");
	assert_eq!(input.value(), "hello world");
	assert_eq!(input.cursor(), 6);
}

#[test]
fn test_input_backspace() {
	let mut input = Input::new();
	input.insert_text("hello");
	input.handle_backspace();
	assert_eq!(input.value(), "hell");
	assert_eq!(input.cursor(), 4);
}

#[test]
fn test_input_backspace_at_start() {
	let mut input = Input::new();
	input.insert_text("hello");
	input.set_cursor(0);
	input.handle_backspace();
	assert_eq!(input.value(), "hello");
	assert_eq!(input.cursor(), 0);
}

#[test]
fn test_input_forward_delete() {
	let mut input = Input::new();
	input.insert_text("hello");
	input.set_cursor(0);
	input.handle_forward_delete();
	assert_eq!(input.value(), "ello");
	assert_eq!(input.cursor(), 0);
}

#[test]
fn test_input_forward_delete_at_end() {
	let mut input = Input::new();
	input.insert_text("hello");
	input.handle_forward_delete();
	assert_eq!(input.value(), "hello");
}

#[test]
fn test_input_cursor_movement() {
	let mut input = Input::new();
	input.insert_text("hello");
	assert_eq!(input.cursor(), 5);

	input.move_cursor_left();
	assert_eq!(input.cursor(), 4);

	input.move_cursor_right();
	assert_eq!(input.cursor(), 5);

	// At end, right should not move
	input.move_cursor_right();
	assert_eq!(input.cursor(), 5);

	// Go to start
	input.set_cursor(0);
	input.move_cursor_left();
	assert_eq!(input.cursor(), 0);
}

#[test]
fn test_input_word_movement() {
	let mut input = Input::new();
	input.insert_text("hello world foo");
	let end = input.value().len();
	input.set_cursor(end);

	// Move backward one word
	input.move_word_backwards();
	assert_eq!(input.cursor(), 12); // before "foo"

	input.move_word_backwards();
	assert_eq!(input.cursor(), 6); // before "world"

	input.move_word_backwards();
	assert_eq!(input.cursor(), 0); // before "hello"

	// Move forward
	input.move_word_forwards();
	assert_eq!(input.cursor(), 5); // after "hello"

	input.move_word_forwards();
	assert_eq!(input.cursor(), 11); // after "world"
}

#[test]
fn test_input_word_movement_with_punctuation() {
	let mut input = Input::new();
	input.insert_text("hello.world");
	let end = input.value().len();
	input.set_cursor(end);

	// Move backward: should stop at punctuation boundary
	input.move_word_backwards();
	assert_eq!(input.cursor(), 6); // after "."

	input.move_word_backwards();
	assert_eq!(input.cursor(), 5); // at "."

	input.move_word_backwards();
	assert_eq!(input.cursor(), 0); // before "hello"
}

#[test]
fn test_input_delete_word_backwards() {
	let mut input = Input::new();
	input.insert_text("hello world");
	input.delete_word_backwards();
	assert_eq!(input.value(), "hello ");
}

#[test]
fn test_input_delete_word_forward() {
	let mut input = Input::new();
	input.insert_text("hello world");
	input.set_cursor(0);
	input.delete_word_forward();
	assert_eq!(input.value(), " world");
}

#[test]
fn test_input_delete_to_line_start() {
	let mut input = Input::new();
	input.insert_text("hello world");
	input.set_cursor(5);
	input.delete_to_line_start();
	assert_eq!(input.value(), " world");
	assert_eq!(input.cursor(), 0);
}

#[test]
fn test_input_delete_to_line_end() {
	let mut input = Input::new();
	input.insert_text("hello world");
	input.set_cursor(5);
	input.delete_to_line_end();
	assert_eq!(input.value(), "hello");
	assert_eq!(input.cursor(), 5);
}

#[test]
fn test_input_undo() {
	let mut input = Input::new();
	input.insert_text("hello");
	input.push_undo();
	input.insert_text(" world");
	assert_eq!(input.value(), "hello world");

	input.undo();
	assert_eq!(input.value(), "hello");
}

#[test]
fn test_input_yank() {
	let mut input = Input::new();
	input.insert_text("hello world");
	input.set_cursor(5); // position cursor after "hello"
	input.delete_to_line_end(); // kills " world"
	assert_eq!(input.value(), "hello");

	// Yank it back
	input.yank();
	assert_eq!(input.value(), "hello world");
}

#[test]
fn test_input_kill_accumulation() {
	let mut input = Input::new();
	input.insert_text("abc def");
	input.set_cursor(0);
	input.delete_to_line_end();
	assert_eq!(input.value(), "");

	// The kill ring should have "abc def"
	assert_eq!(input.kill_ring().peek(), Some("abc def"));
}

#[test]
fn test_input_paste() {
	let mut input = Input::new();
	input.handle_paste("hello\nworld");
	assert_eq!(input.value(), "helloworld");
}

#[test]
fn test_input_paste_crlf() {
	let mut input = Input::new();
	input.handle_paste("hello\r\nworld\r\nfoo");
	assert_eq!(input.value(), "helloworldfoo");
}

#[test]
fn test_has_control_chars() {
	assert!(Input::has_control_chars("\x1b"));
	assert!(Input::has_control_chars("\x01"));
	assert!(!Input::has_control_chars("hello"));
	assert!(!Input::has_control_chars("hello world 123"));
}

#[test]
fn test_input_handle_submit() {
	let mut input = Input::new();
	let (result, event) = input.handle_input("\r");
	assert_eq!(result, InputResult::Consumed);
	assert!(matches!(event, InputEvent::Submit(_)));
}

#[test]
fn test_input_handle_escape() {
	let mut input = Input::new();
	let (result, event) = input.handle_input("\x1b");
	assert_eq!(result, InputResult::Consumed);
	assert!(matches!(event, InputEvent::Escape));
}

#[test]
fn test_grapheme_boundary() {
	assert_eq!(find_grapheme_boundary("hello", 3), 3);
	assert_eq!(find_grapheme_boundary("hello", 10), 5);
	assert_eq!(find_grapheme_boundary("hello", 0), 0);
}

#[test]
fn test_grapheme_boundary_from_end() {
	assert_eq!(find_grapheme_boundary_from_end("hello", 3), 2);
	assert_eq!(find_grapheme_boundary_from_end("hello", 10), 0);
}

#[test]
fn input_typing_and_keys_through_handle_input() {
	let mut input = Input::new();
	for key in ["h", "e", "l", "l", "o"] {
		let (result, event) = input.handle_input(key);
		assert_eq!(result, InputResult::Consumed);
		assert!(matches!(event, InputEvent::Nothing));
	}
	assert_eq!(input.value(), "hello");
	// Ctrl+A, then Ctrl+K kills everything; Ctrl+Y brings it back.
	input.handle_input("\x01");
	assert_eq!(input.cursor(), 0);
	input.handle_input("\x0b");
	assert_eq!(input.value(), "");
	input.handle_input("\x19");
	assert_eq!(input.value(), "hello");
	// A control character that is no binding is ignored.
	let (result, _) = input.handle_input("\x07");
	assert_eq!(result, InputResult::Ignored);
}

#[test]
fn input_bracketed_paste_across_chunks() {
	let mut input = Input::new();
	let (result, _) = input.handle_input("\x1b[200~ab\nc");
	assert_eq!(result, InputResult::Consumed);
	assert_eq!(input.value(), "");
	let (result, event) = input.handle_input("d\x1b[201~\r");
	assert_eq!(result, InputResult::Consumed);
	assert_eq!(input.value(), "abcd");
	match event {
		InputEvent::Submit(text) => assert_eq!(text, "abcd"),
		_ => panic!("expected submit after the paste"),
	}
}

#[test]
fn input_undo_coalesces_word_typing() {
	let mut input = Input::new();
	input.handle_input("a");
	input.handle_input("b");
	input.handle_input(" ");
	input.handle_input("c");
	assert_eq!(input.value(), "ab c");
	// Ctrl+- undoes "c" together with the space before it, then "ab".
	input.handle_input("\x1f");
	assert_eq!(input.value(), "ab");
	input.handle_input("\x1f");
	assert_eq!(input.value(), "");
}

#[test]
fn input_yank_pop_cycles_kills() {
	let mut input = Input::new();
	input.insert_text("one");
	input.delete_word_backwards();
	input.insert_text("two");
	input.delete_word_backwards();
	input.yank();
	assert_eq!(input.value(), "two");
	input.yank_pop();
	assert_eq!(input.value(), "one");
}
