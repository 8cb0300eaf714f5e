use rho_tui::component::{Component, Container, InputResult};
use rho_tui::terminal::{check_kitty_response, crossterm_key_to_string, KeyCode, KeyPress};
use rho_tui::tui::is_key_release;

fn press(code: KeyCode) -> KeyPress {
	KeyPress { code, ctrl: false, alt: false }
}

#[test]
fn test_check_kitty_response() {
	assert!(check_kitty_response("\x1b[?1u"));
	assert!(check_kitty_response("\x1b[?0u"));
	assert!(!check_kitty_response("\x1b[A"));
	assert!(!check_kitty_response("hello"));
}

#[test]
fn kitty_response_rejects_non_digits() {
	assert!(check_kitty_response("\x1b[?15u"));
	assert!(!check_kitty_response("\x1b[?1xu"));
	assert!(!check_kitty_response("\x1b[?1"));
}

#[test]
fn test_crossterm_key_to_string() {
	assert_eq!(crossterm_key_to_string(&press(KeyCode::Char('a'))), "a");
	assert_eq!(crossterm_key_to_string(&press(KeyCode::Up)), "\x1b[A");
	assert_eq!(crossterm_key_to_string(&press(KeyCode::Enter)), "\r");
}

#[test]
fn key_to_string_modifiers_and_function_keys() {
	let ctrl_c = KeyPress { code: KeyCode::Char('c'), ctrl: true, alt: false };
	assert_eq!(crossterm_key_to_string(&ctrl_c), "\x03");
	let alt_x = KeyPress { code: KeyCode::Char('x'), ctrl: false, alt: true };
	assert_eq!(crossterm_key_to_string(&alt_x), "\x1bx");
	// Control with a non-letter falls back to the character.
	let ctrl_digit = KeyPress { code: KeyCode::Char('1'), ctrl: true, alt: false };
	assert_eq!(crossterm_key_to_string(&ctrl_digit), "1");
	assert_eq!(crossterm_key_to_string(&press(KeyCode::F(5))), "\x1b[15~");
	assert_eq!(crossterm_key_to_string(&press(KeyCode::F(13))), "");
	assert_eq!(crossterm_key_to_string(&press(KeyCode::Other)), "");
}

#[test]
fn test_is_key_release() {
	assert!(is_key_release("\x1b[97;1:3u"));
	assert!(is_key_release("\x1b[1;1:3A"));
	assert!(is_key_release("\x1b[3;1:3~"));
	assert!(!is_key_release("\x1b[97u"));
	assert!(!is_key_release("\x1b[A"));
	assert!(!is_key_release("a"));
}

#[test]
fn key_release_needs_final_byte_after_event_type() {
	assert!(!is_key_release("\x1b[97;1:3"));
	assert!(!is_key_release("\x1b[97;1:3u1"));
	assert!(!is_key_release("\x1b[97;1:2u"));
}

struct TestComponent {
	lines: Vec<String>,
}

impl TestComponent {
	fn new(lines: &[&str]) -> Self {
		Self { lines: lines.iter().map(|s| (*s).to_owned()).collect() }
	}
}

impl Component for TestComponent {
	fn render(&mut self, _width: u16) -> Vec<String> {
		self.lines.clone()
	}
}

#[test]
fn test_container_render() {
	let mut container = Container::new();
	container.add_child(Box::new(TestComponent::new(&["line1", "line2"])));
	container.add_child(Box::new(TestComponent::new(&["line3"])));

	let lines = container.render(80);
	assert_eq!(lines, vec!["line1", "line2", "line3"]);
}

#[test]
fn test_container_clear() {
	let mut container = Container::new();
	container.add_child(Box::new(TestComponent::new(&["a"])));
	assert_eq!(container.children().len(), 1);
	container.clear();
	assert!(container.children().is_empty());
}

#[test]
fn container_remove_child_and_default_input() {
	let mut container = Container::default();
	container.add_child(Box::new(TestComponent::new(&["a"])));
	container.add_child(Box::new(TestComponent::new(&["b"])));
	container.remove_child(5);
	assert_eq!(container.children().len(), 2);
	container.remove_child(0);
	assert_eq!(container.render(10), vec!["b"]);
	assert_eq!(container.handle_input("x"), InputResult::Ignored);
}
