use rho_tui::stdin_buffer::{StdinBuffer, StdinEvent};

const BRACKETED_PASTE_START: &[u8] = b"\x1b[200~";
const BRACKETED_PASTE_END: &[u8] = b"\x1b[201~";


fn collect_data(events: &[StdinEvent]) -> Vec<String> {
	events
		.iter()
		.filter_map(|e| match e {
			StdinEvent::Data(s) => Some(s.clone()),
			StdinEvent::Paste(_) => None,
		})
		.collect()
}

fn collect_paste(events: &[StdinEvent]) -> Vec<String> {
	events
		.iter()
		.filter_map(|e| match e {
			StdinEvent::Paste(s) => Some(s.clone()),
			StdinEvent::Data(_) => None,
		})
		.collect()
}

// ── Regular Characters ──────────────────────────────────────────

#[test]
fn regular_char_passthrough() {
	let mut buf = StdinBuffer::new();
	let events = buf.process(b"a");
	assert_eq!(collect_data(&events), vec!["a"]);
}

#[test]
fn multiple_regular_chars() {
	let mut buf = StdinBuffer::new();
	let events = buf.process(b"abc");
	assert_eq!(collect_data(&events), vec!["a", "b", "c"]);
}

#[test]
fn unicode_chars() {
	let mut buf = StdinBuffer::new();
	let input = "hello 世界";
	let events = buf.process(input.as_bytes());
	assert_eq!(collect_data(&events), vec!["h", "e", "l", "l", "o", " ", "世", "界"]);
}

// ── Complete Escape Sequences ───────────────────────────────────

#[test]
fn complete_mouse_sgr() {
	let mut buf = StdinBuffer::new();
	let events = buf.process(b"\x1b[<35;20;5m");
	assert_eq!(collect_data(&events), vec!["\x1b[<35;20;5m"]);
}

#[test]
fn complete_arrow_key() {
	let mut buf = StdinBuffer::new();
	let events = buf.process(b"\x1b[A");
	assert_eq!(collect_data(&events), vec!["\x1b[A"]);
}

#[test]
fn complete_function_key() {
	let mut buf = StdinBuffer::new();
	let events = buf.process(b"\x1b[11~");
	assert_eq!(collect_data(&events), vec!["\x1b[11~"]);
}

#[test]
fn meta_key_sequence() {
	let mut buf = StdinBuffer::new();
	let events = buf.process(b"\x1ba");
	assert_eq!(collect_data(&events), vec!["\x1ba"]);
}

#[test]
fn ss3_sequence() {
	let mut buf = StdinBuffer::new();
	let events = buf.process(b"\x1bOA");
	assert_eq!(collect_data(&events), vec!["\x1bOA"]);
}

// ── Partial Escape Sequences ────────────────────────────────────

#[test]
fn buffer_incomplete_mouse_sgr() {
	let mut buf = StdinBuffer::new();

	let events = buf.process(b"\x1b");
	assert!(collect_data(&events).is_empty());
	assert_eq!(buf.get_buffer(), b"\x1b");

	let events = buf.process(b"[<35");
	assert!(collect_data(&events).is_empty());
	assert_eq!(buf.get_buffer(), b"\x1b[<35");

	let events = buf.process(b";20;5m");
	assert_eq!(collect_data(&events), vec!["\x1b[<35;20;5m"]);
	assert!(buf.get_buffer().is_empty());
}

#[test]
fn buffer_incomplete_csi() {
	let mut buf = StdinBuffer::new();

	let events = buf.process(b"\x1b[");
	assert!(collect_data(&events).is_empty());

	let events = buf.process(b"1;");
	assert!(collect_data(&events).is_empty());

	let events = buf.process(b"5H");
	assert_eq!(collect_data(&events), vec!["\x1b[1;5H"]);
}

#[test]
fn buffer_split_many_chunks() {
	let mut buf = StdinBuffer::new();
	let chunks: &[&[u8]] = &[b"\x1b", b"[", b"<", b"3", b"5", b";", b"2", b"0", b";", b"5", b"m"];
	let mut all_events = Vec::new();
	for chunk in chunks {
		all_events.extend(buf.process(chunk));
	}
	assert_eq!(collect_data(&all_events), vec!["\x1b[<35;20;5m"]);
}

#[test]
fn flush_incomplete_sequence() {
	let mut buf = StdinBuffer::new();
	let events = buf.process(b"\x1b[<35");
	assert!(collect_data(&events).is_empty());

	let flushed = buf.flush();
	assert_eq!(flushed, vec!["\x1b[<35"]);
}

// ── Mixed Content ───────────────────────────────────────────────

#[test]
fn chars_then_escape() {
	let mut buf = StdinBuffer::new();
	let events = buf.process(b"abc\x1b[A");
	assert_eq!(collect_data(&events), vec!["a", "b", "c", "\x1b[A"]);
}

#[test]
fn escape_then_chars() {
	let mut buf = StdinBuffer::new();
	let events = buf.process(b"\x1b[Aabc");
	assert_eq!(collect_data(&events), vec!["\x1b[A", "a", "b", "c"]);
}

#[test]
fn multiple_complete_sequences() {
	let mut buf = StdinBuffer::new();
	let events = buf.process(b"\x1b[A\x1b[B\x1b[C");
	assert_eq!(collect_data(&events), vec!["\x1b[A", "\x1b[B", "\x1b[C"]);
}

#[test]
fn partial_with_preceding_chars() {
	let mut buf = StdinBuffer::new();

	let events = buf.process(b"abc\x1b[<35");
	assert_eq!(collect_data(&events), vec!["a", "b", "c"]);
	assert_eq!(buf.get_buffer(), b"\x1b[<35");

	let events = buf.process(b";20;5m");
	assert_eq!(collect_data(&events), vec!["\x1b[<35;20;5m"]);
}

// ── Kitty Keyboard Protocol ─────────────────────────────────────

#[test]
fn kitty_csi_u_press() {
	let mut buf = StdinBuffer::new();
	let events = buf.process(b"\x1b[97u");
	assert_eq!(collect_data(&events), vec!["\x1b[97u"]);
}

#[test]
fn kitty_csi_u_release() {
	let mut buf = StdinBuffer::new();
	let events = buf.process(b"\x1b[97;1:3u");
	assert_eq!(collect_data(&events), vec!["\x1b[97;1:3u"]);
}

#[test]
fn batched_kitty_press_release() {
	let mut buf = StdinBuffer::new();
	let events = buf.process(b"\x1b[97u\x1b[97;1:3u");
	assert_eq!(collect_data(&events), vec!["\x1b[97u", "\x1b[97;1:3u"]);
}

#[test]
fn multiple_batched_kitty() {
	let mut buf = StdinBuffer::new();
	let events = buf.process(b"\x1b[97u\x1b[97;1:3u\x1b[98u\x1b[98;1:3u");
	assert_eq!(collect_data(&events), vec![
		"\x1b[97u",
		"\x1b[97;1:3u",
		"\x1b[98u",
		"\x1b[98;1:3u"
	]);
}

#[test]
fn kitty_arrow_with_event_type() {
	let mut buf = StdinBuffer::new();
	let events = buf.process(b"\x1b[1;1:1A");
	assert_eq!(collect_data(&events), vec!["\x1b[1;1:1A"]);
}

#[test]
fn kitty_functional_key_release() {
	let mut buf = StdinBuffer::new();
	let events = buf.process(b"\x1b[3;1:3~");
	assert_eq!(collect_data(&events), vec!["\x1b[3;1:3~"]);
}

#[test]
fn plain_char_with_kitty() {
	let mut buf = StdinBuffer::new();
	let events = buf.process(b"a\x1b[97;1:3u");
	assert_eq!(collect_data(&events), vec!["a", "\x1b[97;1:3u"]);
}

#[test]
fn kitty_then_plain_char() {
	let mut buf = StdinBuffer::new();
	let events = buf.process(b"\x1b[97ua");
	assert_eq!(collect_data(&events), vec!["\x1b[97u", "a"]);
}

#[test]
fn rapid_kitty_typing() {
	let mut buf = StdinBuffer::new();
	let events = buf.process(b"\x1b[104u\x1b[104;1:3u\x1b[105u\x1b[105;1:3u");
	assert_eq!(collect_data(&events), vec![
		"\x1b[104u",
		"\x1b[104;1:3u",
		"\x1b[105u",
		"\x1b[105;1:3u"
	]);
}

// ── Mouse Events ────────────────────────────────────────────────

#[test]
fn mouse_press() {
	let mut buf = StdinBuffer::new();
	let events = buf.process(b"\x1b[<0;10;5M");
	assert_eq!(collect_data(&events), vec!["\x1b[<0;10;5M"]);
}

#[test]
fn mouse_release() {
	let mut buf = StdinBuffer::new();
	let events = buf.process(b"\x1b[<0;10;5m");
	assert_eq!(collect_data(&events), vec!["\x1b[<0;10;5m"]);
}

#[test]
fn mouse_move() {
	let mut buf = StdinBuffer::new();
	let events = buf.process(b"\x1b[<35;20;5m");
	assert_eq!(collect_data(&events), vec!["\x1b[<35;20;5m"]);
}

#[test]
fn split_mouse_events() {
	let mut buf = StdinBuffer::new();
	let mut all = Vec::new();
	all.extend(buf.process(b"\x1b[<3"));
	all.extend(buf.process(b"5;1"));
	all.extend(buf.process(b"5;"));
	all.extend(buf.process(b"10m"));
	assert_eq!(collect_data(&all), vec!["\x1b[<35;15;10m"]);
}

#[test]
fn multiple_mouse_events() {
	let mut buf = StdinBuffer::new();
	let events = buf.process(b"\x1b[<35;1;1m\x1b[<35;2;2m\x1b[<35;3;3m");
	assert_eq!(collect_data(&events), vec!["\x1b[<35;1;1m", "\x1b[<35;2;2m", "\x1b[<35;3;3m"]);
}

#[test]
fn old_style_mouse() {
	let mut buf = StdinBuffer::new();
	let events = buf.process(b"\x1b[M abc");
	assert_eq!(collect_data(&events), vec!["\x1b[M ab", "c"]);
}

#[test]
fn buffer_incomplete_old_style_mouse() {
	let mut buf = StdinBuffer::new();

	let events = buf.process(b"\x1b[M");
	assert!(collect_data(&events).is_empty());
	assert_eq!(buf.get_buffer(), b"\x1b[M");

	let events = buf.process(b" a");
	assert!(collect_data(&events).is_empty());
	assert_eq!(buf.get_buffer(), b"\x1b[M a");

	let events = buf.process(b"b");
	assert_eq!(collect_data(&events), vec!["\x1b[M ab"]);
}

// ── Edge Cases ──────────────────────────────────────────────────

#[test]
fn empty_input() {
	let mut buf = StdinBuffer::new();
	let events = buf.process(b"");
	assert_eq!(collect_data(&events), vec![""]);
}

#[test]
fn lone_escape_flush() {
	let mut buf = StdinBuffer::new();
	let events = buf.process(b"\x1b");
	assert!(collect_data(&events).is_empty());

	let flushed = buf.flush();
	assert_eq!(flushed, vec!["\x1b"]);
}

#[test]
fn very_long_sequence() {
	let mut buf = StdinBuffer::new();
	let mut seq = Vec::new();
	seq.extend_from_slice(b"\x1b[");
	for _ in 0..50 {
		seq.extend_from_slice(b"1;");
	}
	seq.push(b'H');
	let events = buf.process(&seq);
	let data = collect_data(&events);
	assert_eq!(data.len(), 1);
	assert_eq!(data[0].as_bytes(), seq.as_slice());
}

// ── Flush / Clear ───────────────────────────────────────────────

#[test]
fn flush_incomplete() {
	let mut buf = StdinBuffer::new();
	let _ = buf.process(b"\x1b[<35");
	let flushed = buf.flush();
	assert_eq!(flushed, vec!["\x1b[<35"]);
	assert!(buf.get_buffer().is_empty());
}

#[test]
fn flush_empty() {
	let mut buf = StdinBuffer::new();
	let flushed = buf.flush();
	assert!(flushed.is_empty());
}

#[test]
fn clear_buffer() {
	let mut buf = StdinBuffer::new();
	let _ = buf.process(b"\x1b[<35");
	assert!(!buf.get_buffer().is_empty());

	buf.clear();
	assert!(buf.get_buffer().is_empty());
}

// ── Bracketed Paste ─────────────────────────────────────────────

#[test]
fn complete_bracketed_paste() {
	let mut buf = StdinBuffer::new();
	let mut input = Vec::new();
	input.extend_from_slice(BRACKETED_PASTE_START);
	input.extend_from_slice(b"hello world");
	input.extend_from_slice(BRACKETED_PASTE_END);

	let events = buf.process(&input);
	assert_eq!(collect_paste(&events), vec!["hello world"]);
	assert!(collect_data(&events).is_empty());
}

#[test]
fn paste_in_chunks() {
	let mut buf = StdinBuffer::new();
	let mut all = Vec::new();

	all.extend(buf.process(BRACKETED_PASTE_START));
	assert!(collect_paste(&all).is_empty());

	all.extend(buf.process(b"hello "));
	assert!(collect_paste(&all).is_empty());

	let mut end = b"world".to_vec();
	end.extend_from_slice(BRACKETED_PASTE_END);
	all.extend(buf.process(&end));
	assert_eq!(collect_paste(&all), vec!["hello world"]);
	assert!(collect_data(&all).is_empty());
}

#[test]
fn paste_with_input_before_and_after() {
	let mut buf = StdinBuffer::new();
	let mut all_events = Vec::new();

	all_events.extend(buf.process(b"a"));

	let mut paste = Vec::new();
	paste.extend_from_slice(BRACKETED_PASTE_START);
	paste.extend_from_slice(b"pasted");
	paste.extend_from_slice(BRACKETED_PASTE_END);
	all_events.extend(buf.process(&paste));

	all_events.extend(buf.process(b"b"));

	assert_eq!(collect_data(&all_events), vec!["a", "b"]);
	assert_eq!(collect_paste(&all_events), vec!["pasted"]);
}

#[test]
fn paste_with_newlines() {
	let mut buf = StdinBuffer::new();
	let mut input = Vec::new();
	input.extend_from_slice(BRACKETED_PASTE_START);
	input.extend_from_slice(b"line1\nline2\nline3");
	input.extend_from_slice(BRACKETED_PASTE_END);

	let events = buf.process(&input);
	assert_eq!(collect_paste(&events), vec!["line1\nline2\nline3"]);
}

#[test]
fn paste_with_unicode() {
	let mut buf = StdinBuffer::new();
	let content = "Hello 世界 🎉";
	let mut input = Vec::new();
	input.extend_from_slice(BRACKETED_PASTE_START);
	input.extend_from_slice(content.as_bytes());
	input.extend_from_slice(BRACKETED_PASTE_END);

	let events = buf.process(&input);
	assert_eq!(collect_paste(&events), vec![content]);
}

// ── Destroy ─────────────────────────────────────────────────────

#[test]
fn clear_on_destroy() {
	let mut buf = StdinBuffer::new();
	let _ = buf.process(b"\x1b[<35");
	assert!(!buf.get_buffer().is_empty());

	buf.clear(); // destroy == clear in our impl
	assert!(buf.get_buffer().is_empty());
}

#[test]
fn whole_paste_is_exactly_one_event() {
	let mut buffer = StdinBuffer::new();
	let mut input = Vec::new();
	input.extend_from_slice(BRACKETED_PASTE_START);
	input.extend_from_slice(b"line one\nline \x1b[A two");
	input.extend_from_slice(BRACKETED_PASTE_END);
	let events = buffer.process(&input);
	assert_eq!(events.len(), 1);
	assert_eq!(events[0], StdinEvent::Paste("line one\nline \x1b[A two".to_owned()));
	assert!(!buffer.has_pending());
}

#[test]
fn two_chunks_give_the_events_of_the_whole() {
	let mut x = StdinBuffer::new();
	let mut y = StdinBuffer::new();
	let mut split = x.process(b"a\x1b[");
	split.extend(x.process(b"Ab"));
	let whole = y.process(b"a\x1b[Ab");
	assert_eq!(collect_data(&split), collect_data(&whole));
	assert_eq!(collect_data(&whole), vec!["a", "\x1b[A", "b"]);
	assert_eq!(x.get_buffer(), y.get_buffer());
}

#[test]
fn paste_fed_in_chunks_is_one_event() {
	let mut b = StdinBuffer::new();
	let mut events = b.process(BRACKETED_PASTE_START);
	events.extend(b.process(b"hello "));
	let mut last = b"world".to_vec();
	last.extend_from_slice(BRACKETED_PASTE_END);
	events.extend(b.process(&last));
	assert_eq!(events, vec![StdinEvent::Paste("hello world".to_owned())]);
	assert!(!b.has_pending());
}
