use rho_tui::kill_ring::KillRing;


#[test]
fn test_push_and_peek() {
	let mut kr = KillRing::new();
	assert!(kr.is_empty());
	assert_eq!(kr.peek(), None);

	kr.push("hello", false, false);
	assert_eq!(kr.peek(), Some("hello"));
	assert_eq!(kr.len(), 1);
}

#[test]
fn test_push_empty_ignored() {
	let mut kr = KillRing::new();
	kr.push("", false, false);
	assert!(kr.is_empty());
}

#[test]
fn test_accumulate_append() {
	let mut kr = KillRing::new();
	kr.push("hello", false, false);
	kr.push(" world", false, true);
	assert_eq!(kr.peek(), Some("hello world"));
	assert_eq!(kr.len(), 1);
}

#[test]
fn test_accumulate_prepend() {
	let mut kr = KillRing::new();
	kr.push("world", false, false);
	kr.push("hello ", true, true);
	assert_eq!(kr.peek(), Some("hello world"));
	assert_eq!(kr.len(), 1);
}

#[test]
fn test_accumulate_on_empty_creates_new() {
	let mut kr = KillRing::new();
	kr.push("hello", false, true);
	assert_eq!(kr.peek(), Some("hello"));
	assert_eq!(kr.len(), 1);
}

#[test]
fn test_rotate() {
	let mut kr = KillRing::new();
	kr.push("a", false, false);
	kr.push("b", false, false);
	kr.push("c", false, false);

	assert_eq!(kr.peek(), Some("c"));
	kr.rotate();
	assert_eq!(kr.peek(), Some("b"));
	kr.rotate();
	assert_eq!(kr.peek(), Some("a"));
	kr.rotate();
	assert_eq!(kr.peek(), Some("c"));
}

#[test]
fn test_rotate_single_element() {
	let mut kr = KillRing::new();
	kr.push("only", false, false);
	kr.rotate();
	assert_eq!(kr.peek(), Some("only"));
}

