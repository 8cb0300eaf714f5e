use rho_tui::component::InputResult;
use rho_tui::components::filterable_select::{
	FilterableSelect, FilterableSelectItem, FilterableSelectTheme,
};
use rho_tui::components::select_list::SelectListTheme;
use rho_tui::components::tab_bar::{Tab, TabBarTheme};
use rho_tui::style::Style;

fn make_tabs() -> Vec<Tab> {
	vec![Tab::new("all", "All"), Tab::new("acme", "Acme"), Tab::new("openai", "OpenAI")]
}

fn make_items() -> Vec<FilterableSelectItem> {
	vec![
		FilterableSelectItem {
			value:       "acme/model-sonnet".to_owned(),
			label:       "Model Sonnet 4.5  200K [DEFAULT]".to_owned(),
			description: Some("acme  images".to_owned()),
			tab_id:      "acme".to_owned(),
		},
		FilterableSelectItem {
			value:       "acme/model-haiku".to_owned(),
			label:       "Model Haiku 4.5  200K [FAST]".to_owned(),
			description: Some("acme  images".to_owned()),
			tab_id:      "acme".to_owned(),
		},
		FilterableSelectItem {
			value:       "openai/gpt-4o".to_owned(),
			label:       "GPT-4o  128K".to_owned(),
			description: Some("openai  images".to_owned()),
			tab_id:      "openai".to_owned(),
		},
		FilterableSelectItem {
			value:       "openai/gpt-4o-mini".to_owned(),
			label:       "GPT-4o Mini  128K".to_owned(),
			description: Some("openai".to_owned()),
			tab_id:      "openai".to_owned(),
		},
	]
}

fn plain_theme() -> FilterableSelectTheme {
	FilterableSelectTheme {
		tab_bar:     TabBarTheme::plain(),
		select_list: SelectListTheme::plain(),
		search_hint: Style::plain(),
		border:      Style::plain(),
	}
}

#[test]
fn test_auto_switch_to_all_on_type() {
	let mut fs = FilterableSelect::new(make_tabs(), make_items(), 10, plain_theme());

	fs.handle_input("\t");
	assert_eq!(fs.active_tab_index(), 1, "Should be on Acme tab");

	fs.handle_input("g");
	assert_eq!(fs.active_tab_index(), 0, "Should auto-switch to All tab");
}

#[test]
fn test_enter_returns_submit() {
	let mut fs = FilterableSelect::new(make_tabs(), make_items(), 10, plain_theme());
	let result = fs.handle_input("\r");
	match result {
		InputResult::Submit(value) => {
			assert_eq!(value, "acme/model-sonnet", "Should submit first item's value");
		},
		other => panic!("Expected Submit, got {:?}", other),
	}
}

#[test]
fn test_esc_sets_cancelled() {
	let mut fs = FilterableSelect::new(make_tabs(), make_items(), 10, plain_theme());
	assert!(!fs.is_cancelled());
	fs.handle_input("\x1b");
	assert!(fs.is_cancelled());
}

#[test]
fn test_up_down_navigates() {
	let mut fs = FilterableSelect::new(make_tabs(), make_items(), 10, plain_theme());

	assert_eq!(fs.selected_value(), Some("acme/model-sonnet"));
	fs.handle_input("\x1b[B");
	assert_eq!(fs.selected_value(), Some("acme/model-haiku"));
	fs.handle_input("\x1b[B");
	assert_eq!(fs.selected_value(), Some("openai/gpt-4o"));
	fs.handle_input("\x1b[A");
	assert_eq!(fs.selected_value(), Some("acme/model-haiku"));
}

#[test]
fn test_ctrl_c_sets_cancelled() {
	let mut fs = FilterableSelect::new(make_tabs(), make_items(), 10, plain_theme());
	assert!(!fs.is_cancelled());
	fs.handle_input("\x03");
	assert!(fs.is_cancelled());
}

#[test]
fn tab_switching_shows_the_tab_items() {
	let mut fs = FilterableSelect::new(make_tabs(), make_items(), 10, plain_theme());
	fs.handle_input("\t"); // Acme
	assert_eq!(fs.selected_value(), Some("acme/model-sonnet"));
	fs.handle_input("\x1b[A"); // wraps to the last Acme item
	assert_eq!(fs.selected_value(), Some("acme/model-haiku"));
	fs.handle_input("\t"); // OpenAI
	assert_eq!(fs.selected_value(), Some("openai/gpt-4o"));
	fs.handle_input("\x1b[Z"); // Shift+Tab back to Acme
	assert_eq!(fs.active_tab_index(), 1);
	assert!(fs.take_filter_request().is_none());
}

#[test]
fn search_hands_out_a_request_and_takes_the_ranking() {
	let mut fs = FilterableSelect::new(make_tabs(), make_items(), 10, plain_theme());
	fs.handle_input("\t"); // OpenAI items are not on this tab
	fs.handle_input("g");
	assert_eq!(fs.search_value(), "g");
	let request = fs.take_filter_request().expect("a search to rank");
	assert_eq!(request.query, "g");
	// Typing switched to the first tab: every item is a candidate.
	assert_eq!(request.candidates, vec![0, 1, 2, 3]);
	fs.set_matches(&vec![3, 2]);
	assert_eq!(fs.selected_value(), Some("openai/gpt-4o-mini"));
	assert!(fs.take_filter_request().is_none());

	// Clearing the search shows every item again, without a request.
	fs.handle_input("\x7f");
	assert_eq!(fs.search_value(), "");
	assert!(fs.take_filter_request().is_none());
	assert_eq!(fs.selected_value(), Some("acme/model-sonnet"));
}

#[test]
fn enter_with_no_match_is_consumed() {
	let mut fs = FilterableSelect::new(make_tabs(), make_items(), 10, plain_theme());
	fs.handle_input("z");
	fs.set_matches(&vec![]);
	assert_eq!(fs.selected_value(), None);
	assert_eq!(fs.handle_input("\r"), InputResult::Consumed);
}
