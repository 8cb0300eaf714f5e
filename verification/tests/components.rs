use std::time::Instant;

use rho_tui::component::InputResult;
use rho_tui::components::loader::{CancellableLoader, Loader};
use rho_tui::components::select_list::{SelectItem, SelectList, SelectListTheme};
use rho_tui::components::settings_list::{SettingItem, SettingsEvent, SettingsList, SettingsListTheme, SelectableStyle};
use rho_tui::components::spacer::Spacer;
use rho_tui::components::tab_bar::{Tab, TabBar, TabBarTheme};
use rho_tui::style::Style;
use rho_tui::symbols::{BoxSymbols, RoundedBoxSymbols, SymbolTheme};

fn identity_fn() -> Style {
	Style::plain()
}

#[test]
fn test_loader_tick() {
	let mut loader = Loader::new(identity_fn(), identity_fn(), "test");
	// Immediately after creation, tick should not advance (interval not elapsed)
	assert!(!loader.tick());
	// A frame interval later
	assert!(loader.advance(80, Instant::now()));
	assert_eq!(loader.current_frame(), 1);
}

#[test]
fn test_loader_stop_start() {
	let mut loader = Loader::new(identity_fn(), identity_fn(), "test");
	assert!(loader.is_running());
	loader.stop();
	assert!(!loader.is_running());
	assert!(!loader.advance(80, Instant::now())); // stopped
	loader.start();
	assert!(loader.is_running());
}

#[test]
fn test_cancellable_loader_escape() {
	let mut loader = CancellableLoader::new(identity_fn(), identity_fn(), "Working...");
	assert!(!loader.is_aborted());
	let result = loader.handle_input("\x1b");
	assert_eq!(result, InputResult::Consumed);
	assert!(loader.is_aborted());
}

#[test]
fn test_cancellable_loader_non_escape_ignored() {
	let mut loader = CancellableLoader::new(identity_fn(), identity_fn(), "Working...");
	let result = loader.handle_input("a");
	assert_eq!(result, InputResult::Ignored);
	assert!(!loader.is_aborted());
}

fn symbols() -> SymbolTheme {
	SymbolTheme {
		cursor:         ">",
		input_cursor:   "|",
		box_round:      RoundedBoxSymbols {
			top_left:     "╭",
			top_right:    "╮",
			bottom_left:  "╰",
			bottom_right: "╯",
			horizontal:   "─",
			vertical:     "│",
		},
		box_sharp:      BoxSymbols {
			top_left:     "┌",
			top_right:    "┐",
			bottom_left:  "└",
			bottom_right: "┘",
			horizontal:   "─",
			vertical:     "│",
			tee_down:     "┬",
			tee_up:       "┴",
			tee_left:     "┤",
			tee_right:    "├",
			cross:        "┼",
		},
		table:          BoxSymbols {
			top_left:     "┌",
			top_right:    "┐",
			bottom_left:  "└",
			bottom_right: "┘",
			horizontal:   "─",
			vertical:     "│",
			tee_down:     "┬",
			tee_up:       "┴",
			tee_left:     "┤",
			tee_right:    "├",
			cross:        "┼",
		},
		quote_border:   "│",
		hr_char:        "─",
		spinner_frames: &["⠋"],
	}
}

fn plain_select_theme() -> SelectListTheme {
	SelectListTheme {
		selected_prefix: Style::plain(),
		selected_text:   Style::plain(),
		description:     Style::plain(),
		scroll_info:     Style::plain(),
		no_match:        Style::plain(),
		symbols:         symbols(),
	}
}

fn make_select_items() -> Vec<SelectItem> {
	vec![
		SelectItem::new("alpha", "Alpha"),
		SelectItem::new("beta", "Beta").with_description("Second letter"),
		SelectItem::new("gamma", "Gamma"),
	]
}

#[test]
fn test_select_list_nav() {
	let mut list = SelectList::new(make_select_items(), 10, plain_select_theme());
	assert_eq!(list.selected_index(), 0);
	list.handle_input("\x1b[B"); // down
	assert_eq!(list.selected_index(), 1);
	list.handle_input("\x1b[B"); // down
	assert_eq!(list.selected_index(), 2);
	// Wrap
	list.handle_input("\x1b[B"); // down
	assert_eq!(list.selected_index(), 0);
	// Up wraps to end
	list.handle_input("\x1b[A"); // up
	assert_eq!(list.selected_index(), 2);
}

fn plain_settings_theme() -> SettingsListTheme {
	SettingsListTheme {
		label:       SelectableStyle { normal: Style::plain(), selected: Style::plain() },
		value:       SelectableStyle { normal: Style::plain(), selected: Style::plain() },
		description: Style::plain(),
		cursor:      "> ".to_owned(),
		hint:        Style::plain(),
	}
}

fn make_setting_items() -> Vec<SettingItem> {
	vec![
		SettingItem::new("theme", "Theme", "dark").with_values(vec![
			"dark".into(),
			"light".into(),
			"auto".into(),
		]),
		SettingItem::new("font", "Font Size", "14"),
		SettingItem::new("wrap", "Word Wrap", "on")
			.with_description("Enable word wrapping in the editor"),
	]
}

#[test]
fn test_settings_list_nav() {
	let mut list = SettingsList::new(make_setting_items(), 10, plain_settings_theme());
	assert_eq!(list.selected_index(), 0);
	list.handle_input("\x1b[B"); // down
	assert_eq!(list.selected_index(), 1);
	list.handle_input("\x1b[A"); // up
	assert_eq!(list.selected_index(), 0);
}

#[test]
fn test_settings_list_cycle_value() {
	let mut list = SettingsList::new(make_setting_items(), 10, plain_settings_theme());
	// Activate first item (Theme: dark → light)
	let (result, event) = list.handle_input("\r"); // enter
	assert_eq!(result, InputResult::Consumed);
	assert_eq!(event, SettingsEvent::Changed("theme".to_owned(), "light".to_owned()));
	assert_eq!(list.items()[0].current_value, "light");
}

#[test]
fn test_spacer_default() {
	let spacer = Spacer::default();
	let lines = spacer.render(80);
	assert_eq!(lines.len(), 1);
	assert_eq!(lines[0], "");
}

#[test]
fn test_spacer_multiple_lines() {
	let spacer = Spacer::new(3);
	let lines = spacer.render(80);
	assert_eq!(lines.len(), 3);
	assert!(lines.iter().all(String::is_empty));
}

#[test]
fn test_spacer_zero_lines() {
	let spacer = Spacer::new(0);
	let lines = spacer.render(80);
	assert!(lines.is_empty());
}

#[test]
fn test_spacer_set_lines() {
	let mut spacer = Spacer::new(1);
	spacer.set_lines(5);
	let lines = spacer.render(80);
	assert_eq!(lines.len(), 5);
}

fn make_tabs() -> Vec<Tab> {
	vec![Tab::new("config", "Config"), Tab::new("tools", "Tools"), Tab::new("about", "About")]
}

#[test]
fn test_tab_bar_next_prev() {
	let mut bar = TabBar::new("Test", make_tabs(), TabBarTheme::plain());
	assert_eq!(bar.active_index(), 0);
	bar.next_tab();
	assert_eq!(bar.active_index(), 1);
	bar.next_tab();
	assert_eq!(bar.active_index(), 2);
	// Wrap around
	bar.next_tab();
	assert_eq!(bar.active_index(), 0);
	// Previous wraps
	bar.prev_tab();
	assert_eq!(bar.active_index(), 2);
}

#[test]
fn test_tab_bar_input_tab_key() {
	let mut bar = TabBar::new("Test", make_tabs(), TabBarTheme::plain());
	assert_eq!(bar.active_index(), 0);
	let result = bar.handle_input("\t");
	assert_eq!(result, InputResult::Consumed);
	assert_eq!(bar.active_index(), 1);
}

#[test]
fn test_tab_bar_input_ignored() {
	let mut bar = TabBar::new("Test", make_tabs(), TabBarTheme::plain());
	let result = bar.handle_input("a");
	assert_eq!(result, InputResult::Ignored);
	assert_eq!(bar.active_index(), 0);
}

#[test]
fn test_tab_bar_callback() {
	let mut bar = TabBar::new("Test", make_tabs(), TabBarTheme::plain());
	bar.set_active_index(2);
	assert_eq!(bar.active_index(), 2);
	assert_eq!(bar.active_tab().unwrap().id, "about");
}

#[test]
fn tab_bar_text_lists_label_tabs_and_hint() {
	let bar = TabBar::new("Settings", make_tabs(), TabBarTheme::plain());
	assert_eq!(bar.render_text(), "Settings:   Config    Tools    About   (tab to cycle)");
}

#[test]
fn select_list_window_follows_selection() {
	let items: Vec<SelectItem> = (0..10).map(|i| SelectItem::new(&format!("v{i}"), "")).collect();
	let mut list = SelectList::new(items, 3, SelectListTheme::plain());
	assert_eq!(list.visible_window(), (0, 3));
	assert_eq!(list.scroll_indicator().as_deref(), Some("  (1/10)"));
	list.set_selected_index(5);
	assert_eq!(list.visible_window(), (4, 7));
	assert_eq!(list.scroll_indicator().as_deref(), Some("  (6/10)"));
	list.set_selected_index(9);
	assert_eq!(list.visible_window(), (7, 10));
	let short = SelectList::new(vec![SelectItem::new("a", ""), SelectItem::new("b", "")], 5, SelectListTheme::plain());
	assert_eq!(short.visible_window(), (0, 2));
	assert!(short.scroll_indicator().is_none());
}
