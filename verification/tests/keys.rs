use rho_tui::keys::match_key::{matches_key, matches_kitty_sequence};
use rho_tui::keys::parse::{parse_key, parse_kitty_sequence, parse_modify_other_keys};


#[test]
fn test_parse_single_byte() {
	assert_eq!(parse_key(b"\x1b", false).as_deref(), Some("escape"));
	assert_eq!(parse_key(b"\t", false).as_deref(), Some("tab"));
	assert_eq!(parse_key(b"\r", false).as_deref(), Some("enter"));
	assert_eq!(parse_key(b" ", false).as_deref(), Some("space"));
	assert_eq!(parse_key(b"\x7f", false).as_deref(), Some("backspace"));
	assert_eq!(parse_key(b"\x03", false).as_deref(), Some("ctrl+c"));
	assert_eq!(parse_key(b"a", false).as_deref(), Some("a"));
}

#[test]
fn test_parse_legacy_sequences() {
	assert_eq!(parse_key(b"\x1b[A", false).as_deref(), Some("up"));
	assert_eq!(parse_key(b"\x1b[B", false).as_deref(), Some("down"));
	assert_eq!(parse_key(b"\x1bOP", false).as_deref(), Some("f1"));
	assert_eq!(parse_key(b"\x1b[3~", false).as_deref(), Some("delete"));
}

#[test]
fn test_parse_kitty_csi_u() {
	// CSI 65;5u => ctrl+a (codepoint 65='A', modifier 5=ctrl)
	let result = parse_key(b"\x1b[65;5u", true);
	assert_eq!(result.as_deref(), Some("ctrl+A"));
}

#[test]
fn test_parse_esc_pair_legacy() {
	assert_eq!(parse_key(b"\x1b\x7f", false).as_deref(), Some("alt+backspace"));
	assert_eq!(parse_key(b"\x1b\r", false).as_deref(), Some("alt+enter"));
	assert_eq!(parse_key(b"\x1ba", false).as_deref(), Some("alt+a"));
}

#[test]
fn test_parse_kitty_sequence() {
	let parsed = parse_kitty_sequence(b"\x1b[97;1u").unwrap();
	assert_eq!(parsed.codepoint, 97);
	assert_eq!(parsed.modifier, 0);
}

#[test]
fn test_parse_modify_other_keys() {
	let (mods, keycode) = parse_modify_other_keys(b"\x1b[27;5;97~").unwrap();
	assert_eq!(mods, 4); // ctrl
	assert_eq!(keycode, 97); // 'a'
}



#[test]
fn test_matches_key_basic() {
	assert!(matches_key(b"\x03", "ctrl+c", false));
	assert!(matches_key(b"\x1b", "escape", false));
	assert!(matches_key(b"a", "a", false));
	assert!(matches_key(b" ", "space", false));
	assert!(matches_key(b"\t", "tab", false));
	assert!(matches_key(b"\r", "enter", false));
	assert!(matches_key(b"\x7f", "backspace", false));
}

#[test]
fn test_matches_key_modifiers() {
	assert!(matches_key(b"\x1b\x7f", "alt+backspace", false));
	assert!(matches_key(b"\x1b\r", "alt+enter", false));
	assert!(matches_key(b"\x1b[Z", "shift+tab", false));
	assert!(matches_key(b"A", "shift+a", false));
}

#[test]
fn test_matches_arrow_keys() {
	assert!(matches_key(b"\x1b[A", "up", false));
	assert!(matches_key(b"\x1b[B", "down", false));
	assert!(matches_key(b"\x1b[C", "right", false));
	assert!(matches_key(b"\x1b[D", "left", false));
}

#[test]
fn test_matches_function_keys() {
	assert!(matches_key(b"\x1bOP", "f1", false));
	assert!(matches_key(b"\x1bOQ", "f2", false));
}

#[test]
fn test_matches_kitty_sequence() {
	assert!(matches_kitty_sequence(b"\x1b[65;5u", 65, 4)); // ctrl+A
}

