use rho_tui::tui::{plan_render, RenderState};

const BEGIN: &str = "\x1b[?2026h";
const END: &str = "\x1b[?2026l";

fn lines(ls: &[&str]) -> Vec<String> {
	ls.iter().map(|s| s.to_string()).collect()
}

#[test]
fn first_render_draws_everything_without_clearing() {
	let prev = RenderState::new();
	let (st, buf) = plan_render(&prev, &lines(&["a", "b"]), 80, 24, None);
	assert_eq!(buf, format!("{BEGIN}a\r\nb{END}"));
	assert_eq!(st.full_redraw_count, 1);
	assert_eq!(st.previous_lines, lines(&["a", "b"]));
	assert_eq!(st.cursor_row, 1);
	assert_eq!(st.hardware_cursor_row, 1);
	assert_eq!(st.max_lines_rendered, 2);
	assert_eq!(st.previous_width, 80);
	assert!(!st.cursor_visible);
}

#[test]
fn unchanged_frame_writes_nothing() {
	let prev = RenderState::new();
	let (st, _) = plan_render(&prev, &lines(&["a", "b"]), 80, 24, None);
	let (st2, buf) = plan_render(&st, &lines(&["a", "b"]), 80, 24, None);
	assert_eq!(buf, "");
	assert_eq!(st2.full_redraw_count, 1);
	assert_eq!(st2.previous_lines, lines(&["a", "b"]));
}

#[test]
fn changed_line_is_rewritten_alone() {
	let prev = RenderState::new();
	let (st, _) = plan_render(&prev, &lines(&["a", "b", "c"]), 80, 24, None);
	let (st2, buf) = plan_render(&st, &lines(&["a", "X", "c"]), 80, 24, None);
	// Cursor at row 2 goes up one row to row 1, which is cleared and rewritten.
	assert_eq!(buf, format!("{BEGIN}\x1b[1A\r\x1b[2KX{END}"));
	assert_eq!(st2.full_redraw_count, 1);
	assert_eq!(st2.hardware_cursor_row, 1);
	assert_eq!(st2.cursor_row, 2);
}

#[test]
fn lines_between_first_and_last_change_are_rewritten() {
	let prev = RenderState::new();
	let (st, _) = plan_render(&prev, &lines(&["a", "b", "c", "d"]), 80, 24, None);
	let (_, buf) = plan_render(&st, &lines(&["A", "b", "C", "d"]), 80, 24, None);
	assert_eq!(buf, format!("{BEGIN}\x1b[3A\r\x1b[2KA\r\n\x1b[2Kb\r\n\x1b[2KC{END}"));
}

#[test]
fn appended_line_starts_on_a_new_row() {
	let prev = RenderState::new();
	let (st, _) = plan_render(&prev, &lines(&["a"]), 80, 24, None);
	let (st2, buf) = plan_render(&st, &lines(&["a", "b"]), 80, 24, None);
	assert_eq!(buf, format!("{BEGIN}\r\n\x1b[2Kb{END}"));
	assert_eq!(st2.max_lines_rendered, 2);
	assert_eq!(st2.hardware_cursor_row, 1);
}

#[test]
fn width_change_clears_and_redraws() {
	let prev = RenderState::new();
	let (st, _) = plan_render(&prev, &lines(&["a"]), 80, 24, None);
	let (st2, buf) = plan_render(&st, &lines(&["a"]), 40, 24, None);
	assert_eq!(buf, format!("{BEGIN}\x1b[3J\x1b[2J\x1b[Ha{END}"));
	assert_eq!(st2.full_redraw_count, 2);
	assert_eq!(st2.previous_width, 40);
}

#[test]
fn shrink_with_clear_on_shrink_redraws() {
	let mut prev = RenderState::new();
	prev.clear_on_shrink = true;
	let (st, _) = plan_render(&prev, &lines(&["a", "b"]), 80, 24, None);
	let (st2, buf) = plan_render(&st, &lines(&["a"]), 80, 24, None);
	assert_eq!(buf, format!("{BEGIN}\x1b[3J\x1b[2J\x1b[Ha{END}"));
	assert_eq!(st2.full_redraw_count, 2);
	assert_eq!(st2.max_lines_rendered, 1);
}

#[test]
fn shrink_clears_removed_rows() {
	let prev = RenderState::new();
	let (st, _) = plan_render(&prev, &lines(&["a", "b", "c"]), 80, 24, None);
	let (st2, buf) = plan_render(&st, &lines(&["a"]), 80, 24, None);
	// From row 2 up to row 0, then one row down, clear two rows, back up.
	assert_eq!(buf, format!("{BEGIN}\x1b[2A\r\x1b[1B\r\x1b[2K\x1b[1B\r\x1b[2K\x1b[2A{END}"));
	assert_eq!(st2.full_redraw_count, 1);
	assert_eq!(st2.hardware_cursor_row, 0);
	assert_eq!(st2.previous_lines, lines(&["a"]));
}

#[test]
fn cursor_is_placed_and_shown() {
	let mut prev = RenderState::new();
	prev.show_hardware_cursor = true;
	let (st, buf) = plan_render(&prev, &lines(&["ab", "cd"]), 80, 24, Some((0, 1)));
	assert_eq!(buf, format!("{BEGIN}ab\r\ncd{END}\x1b[1A\x1b[2G"));
	assert_eq!(st.hardware_cursor_row, 0);
	assert!(st.cursor_visible);
}

#[test]
fn change_above_viewport_redraws_whole() {
	let prev = RenderState::new();
	let (st, _) = plan_render(&prev, &lines(&["a", "b", "c", "d"]), 80, 2, None);
	let (st2, buf) = plan_render(&st, &lines(&["X", "b", "c", "d"]), 80, 2, None);
	assert_eq!(buf, format!("{BEGIN}\x1b[3J\x1b[2J\x1b[HX\r\nb\r\nc\r\nd{END}"));
	assert_eq!(st2.full_redraw_count, 2);
}
