use rho_tui::capabilities::{
	encode_iterm2, encode_kitty, get_gif_dimensions, get_png_dimensions, get_terminal_info, image_fallback,
	ImageDimensions, TerminalId,
};
use rho_tui::component::CURSOR_MARKER;
use rho_tui::keybindings::{all_actions, EditorAction, EditorKeybindingsManager};

#[test]
fn test_encode_kitty_single_chunk() {
	let data = "AAAA"; // small
	let result = encode_kitty(data, Some(10), Some(5), None);
	assert!(result.starts_with("\x1b_G"));
	assert!(result.contains("a=T"));
	assert!(result.contains("c=10"));
	assert!(result.contains("r=5"));
	assert!(result.ends_with("\x1b\\"));
}

#[test]
fn test_encode_kitty_multi_chunk() {
	let data = "A".repeat(5000);
	let result = encode_kitty(&data, None, None, None);
	// Should have multiple chunks
	assert!(result.contains("m=1"));
	assert!(result.contains("m=0"));
}

#[test]
fn test_get_png_dimensions() {
	// Minimal PNG-like header
	let mut data = vec![0x89, 0x50, 0x4e, 0x47]; // signature
	data.extend_from_slice(&[0; 12]); // IHDR chunk header
	data.extend_from_slice(&100u32.to_be_bytes()); // width
	data.extend_from_slice(&50u32.to_be_bytes()); // height
	let dims = get_png_dimensions(&data).unwrap();
	assert_eq!(dims.width_px, 100);
	assert_eq!(dims.height_px, 50);
}

#[test]
fn test_get_png_too_short() {
	assert!(get_png_dimensions(&[0x89, 0x50]).is_none());
}

#[test]
fn test_get_gif_dimensions() {
	let mut data = b"GIF89a".to_vec();
	data.extend_from_slice(&320u16.to_le_bytes());
	data.extend_from_slice(&240u16.to_le_bytes());
	let dims = get_gif_dimensions(&data).unwrap();
	assert_eq!(dims.width_px, 320);
	assert_eq!(dims.height_px, 240);
}

#[test]
fn test_image_fallback() {
	let text = image_fallback(
		"image/png",
		Some(ImageDimensions { width_px: 100, height_px: 50 }),
		Some("test.png"),
	);
	assert_eq!(text, "[Image: test.png [image/png] 100x50]");
}

#[test]
fn test_notification_format() {
	let info = get_terminal_info(TerminalId::Kitty);
	let notif = info.format_notification("test");
	assert!(notif.contains("99"));
	assert!(notif.contains("test"));

	let info = get_terminal_info(TerminalId::Base);
	let notif = info.format_notification("test");
	assert_eq!(notif, "\x07");
}

#[test]
fn test_cursor_marker() {
	assert!(CURSOR_MARKER.starts_with('\x1b'));
	assert!(CURSOR_MARKER.ends_with('\x07'));
}

#[test]
fn test_default_bindings_exist() {
	let mgr = EditorKeybindingsManager::new();
	for action in &all_actions() {
		assert!(!mgr.get_keys(*action).is_empty(), "action {action:?} has no bindings");
	}
}

#[test]
fn test_matches_arrow_up() {
	let mgr = EditorKeybindingsManager::new();
	// ESC [ A is up arrow
	assert!(mgr.matches(b"\x1b[A", EditorAction::CursorUp, false));
}

#[test]
fn test_matches_ctrl_a() {
	let mgr = EditorKeybindingsManager::new();
	// Ctrl+A is byte 0x01
	assert!(mgr.matches(b"\x01", EditorAction::CursorLineStart, false));
}

#[test]
fn test_override_bindings() {
	let overrides = vec![(EditorAction::Submit, vec!["ctrl+m".to_owned()])];
	let mgr = EditorKeybindingsManager::with_overrides(&overrides);
	assert_eq!(mgr.get_keys(EditorAction::Submit), &["ctrl+m"]);
}


#[test]
fn iterm2_name_is_base64_encoded() {
	let with_pad = encode_iterm2("AAAA", None, None, Some("a"), true, true);
	assert_eq!(with_pad, "\x1b]1337;File=inline=1;name=YQ==:AAAA\x07");
	let two = encode_iterm2("AAAA", None, None, Some("ab"), true, false);
	assert!(two.contains(";name=YWI=:"));
	let three = encode_iterm2("AAAA", None, None, Some("abc"), true, false);
	assert!(three.contains(";name=YWJj:"));
}
