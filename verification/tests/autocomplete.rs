use std::path::PathBuf;

use rho_tui::components::autocomplete::{
	build_completion_value, find_last_delimiter, find_unclosed_quote_start,
	fuzzy_match_subsequence, fuzzy_score, parse_path_prefix, AutocompleteItem, CommandEntry,
	CombinedAutocompleteProvider, CompletionSource, SlashCommand,
};
use rho_tui::components::editor::AutocompleteProvider;
use rho_tui::components::file_completion::{
	build_relative_path, file_search_plan, file_suggestions_from_entries, DirEntryInfo,
};
use rho_tui::components::select_list::SelectItem;

/// Completes the argument of `/model` and hints it when empty.
struct ModelArguments;

impl CompletionSource for ModelArguments {
	fn argument_completions(&self, command: &str, argument: &str) -> Option<Vec<AutocompleteItem>> {
		if command != "model" {
			return None;
		}
		let all = ["sonnet", "opus", "haiku"];
		let items: Vec<AutocompleteItem> = all
			.iter()
			.filter(|m| m.starts_with(argument))
			.map(|m| AutocompleteItem::new(m, m))
			.collect();
		Some(items)
	}

	fn inline_hint(&self, command: &str, argument: &str) -> Option<String> {
		if command == "model" && argument.is_empty() { Some("sonnet".to_owned()) } else { None }
	}

	fn list_dir(&mut self, _base: &PathBuf, _dir: &str) -> Vec<DirEntryInfo> {
		Vec::new()
	}

	fn fuzzy_file_suggestions(&mut self, _base: &PathBuf, _query: &str, _is_quoted: bool) -> Vec<AutocompleteItem> {
		Vec::new()
	}
}

/// A directory listing held in memory: directory name to entries.
struct FakeDirs {
	dirs:   Vec<(String, Vec<DirEntryInfo>)>,
	listed: Vec<String>,
}

impl CompletionSource for FakeDirs {
	fn argument_completions(&self, _command: &str, _argument: &str) -> Option<Vec<AutocompleteItem>> {
		None
	}

	fn inline_hint(&self, _command: &str, _argument: &str) -> Option<String> {
		None
	}

	fn list_dir(&mut self, _base: &PathBuf, dir: &str) -> Vec<DirEntryInfo> {
		self.listed.push(dir.to_owned());
		self.dirs.iter().find(|(d, _)| d == dir).map(|(_, es)| es.clone()).unwrap_or_default()
	}

	fn fuzzy_file_suggestions(&mut self, _base: &PathBuf, _query: &str, _is_quoted: bool) -> Vec<AutocompleteItem> {
		Vec::new()
	}
}

fn entry(name: &str, is_dir: bool) -> DirEntryInfo {
	DirEntryInfo { name: name.to_owned(), is_dir }
}

fn fake_dirs(dirs: Vec<(&str, Vec<DirEntryInfo>)>) -> FakeDirs {
	FakeDirs { dirs: dirs.into_iter().map(|(d, es)| (d.to_owned(), es)).collect(), listed: Vec::new() }
}

fn slash(name: &str, description: Option<&str>) -> CommandEntry {
	CommandEntry::Slash(SlashCommand {
		name:        name.to_owned(),
		description: description.map(str::to_owned),
	})
}

#[test]
fn test_slash_command_completion() {
	let commands = vec![
		CommandEntry::Item(AutocompleteItem::new("model", "model").with_description("Change model")),
		CommandEntry::Item(AutocompleteItem::new("help", "help").with_description("Show help")),
		CommandEntry::Item(AutocompleteItem::new("clear", "clear")),
	];
	let mut provider = CombinedAutocompleteProvider::new(commands, PathBuf::from("/tmp"));

	let result = provider.get_suggestions(&["/mo".to_owned()], 0, 3);
	assert!(result.is_some());
	let result = result.unwrap();
	assert!(!result.items.is_empty());
	assert_eq!(result.items[0].value, "model");
}

#[test]
fn test_slash_command_fuzzy() {
	let commands = vec![
		CommandEntry::Item(AutocompleteItem::new("model", "model")),
		CommandEntry::Item(AutocompleteItem::new("help", "help")),
	];
	let mut provider = CombinedAutocompleteProvider::new(commands, PathBuf::from("/tmp"));

	// "ml" is a subsequence of "model"
	let result = provider.get_suggestions(&["/ml".to_owned()], 0, 3);
	assert!(result.is_some());
	let result = result.unwrap();
	assert!(result.items.iter().any(|i| i.value == "model"));
}

#[test]
fn test_force_file_suggestions_slash_command() {
	let mut provider = CombinedAutocompleteProvider::new(Vec::new(), PathBuf::from("/tmp"));

	// Should not trigger for slash commands
	let result = provider.get_force_file_suggestions(&["/model".to_owned()], 0, 6);
	assert!(result.is_none());
}

#[test]
fn test_inline_hint() {
	let commands = vec![slash("model", Some("Change model"))];
	let provider =
		CombinedAutocompleteProvider::with_source(commands, PathBuf::from("/tmp"), ModelArguments);

	let hint = provider.get_inline_hint(&["/model ".to_owned()], 0, 7);
	assert_eq!(hint, Some("sonnet".to_owned()));

	// No hint for non-slash
	let hint = provider.get_inline_hint(&["hello".to_owned()], 0, 5);
	assert!(hint.is_none());
}

#[test]
fn slash_names_are_ranked_best_first() {
	// "he": prefix of "help" (80), subsequence of "theme" with no gap... it
	// is a substring there (60); "echo" matches only through its
	// description "shell", where the substring score 60 is halved.
	let commands = vec![
		slash("echo", Some("shell")),
		slash("theme", None),
		slash("help", None),
		slash("quit", None),
	];
	let provider = CombinedAutocompleteProvider::new(commands, PathBuf::from("/tmp"));
	let result = provider.slash_command_suggestions("/he").unwrap();
	let values: Vec<&str> = result.items.iter().map(|i| i.value.as_str()).collect();
	assert_eq!(values, vec!["help", "theme", "echo"]);
	assert_eq!(result.prefix, "/he");
	assert_eq!(result.items[2].description.as_deref(), Some("shell"));
}

#[test]
fn slash_names_keep_order_of_equal_scores() {
	let commands = vec![slash("beta", None), slash("alpha", None)];
	let provider = CombinedAutocompleteProvider::new(commands, PathBuf::from("/tmp"));
	// The empty query scores 1 everywhere: the registration order stays.
	let result = provider.slash_command_suggestions("/").unwrap();
	let values: Vec<&str> = result.items.iter().map(|i| i.value.as_str()).collect();
	assert_eq!(values, vec!["beta", "alpha"]);
}

#[test]
fn slash_names_match_case_insensitively() {
	let commands = vec![slash("Model", None)];
	let provider = CombinedAutocompleteProvider::new(commands, PathBuf::from("/tmp"));
	let result = provider.slash_command_suggestions("/MO").unwrap();
	assert_eq!(result.items[0].value, "Model");
	assert_eq!(result.items[0].label, "Model");
}

#[test]
fn slash_name_without_match_gives_none() {
	let commands = vec![slash("help", None)];
	let provider = CombinedAutocompleteProvider::new(commands, PathBuf::from("/tmp"));
	assert!(provider.slash_command_suggestions("/xyz").is_none());
}

#[test]
fn slash_arguments_come_from_the_source() {
	let commands = vec![slash("model", None), CommandEntry::Item(AutocompleteItem::new("help", "help"))];
	let provider =
		CombinedAutocompleteProvider::with_source(commands, PathBuf::from("/tmp"), ModelArguments);
	let result = provider.slash_command_suggestions("/model o").unwrap();
	assert_eq!(result.prefix, "o");
	assert_eq!(result.items.len(), 1);
	assert_eq!(result.items[0].value, "opus");
	// No completion left, a plain item, or an unknown command: none.
	assert!(provider.slash_command_suggestions("/model x").is_none());
	assert!(provider.slash_command_suggestions("/help a").is_none());
	assert!(provider.slash_command_suggestions("/nope a").is_none());
}

#[test]
fn provider_applies_slash_completion_for_the_editor() {
	let provider = CombinedAutocompleteProvider::new(Vec::new(), PathBuf::from("/tmp"));
	let item = SelectItem::new("model", "model");
	let result = provider.apply_completion(&["/mo".to_owned()], 0, 3, &item, "/mo");
	assert_eq!(result.lines[0], "/model ");
	assert_eq!(result.cursor_col, 7);
}

#[test]
fn test_fuzzy_match_subsequence_basic() {
	assert!(fuzzy_match_subsequence("", "anything"));
	assert!(fuzzy_match_subsequence("abc", "abc"));
	assert!(fuzzy_match_subsequence("ac", "abc"));
	assert!(fuzzy_match_subsequence("wig", "skill:wig"));
	assert!(!fuzzy_match_subsequence("xyz", "abc"));
	assert!(!fuzzy_match_subsequence("toolong", "hi"));
}

#[test]
fn test_fuzzy_score_ranking() {
	let exact = fuzzy_score("hello", "hello");
	let starts = fuzzy_score("hel", "hello");
	let contains = fuzzy_score("ell", "hello");
	let subseq = fuzzy_score("hlo", "hello");

	assert!(exact > starts);
	assert!(starts > contains);
	assert!(contains > subseq);
}

#[test]
fn test_fuzzy_score_no_match() {
	assert_eq!(fuzzy_score("xyz", "abc"), 0);
}

#[test]
fn test_find_last_delimiter() {
	assert_eq!(find_last_delimiter("hello world"), Some(5));
	assert_eq!(find_last_delimiter("hello"), None);
	assert_eq!(find_last_delimiter("a=\"b"), Some(2));
}

#[test]
fn test_find_unclosed_quote_start() {
	assert_eq!(find_unclosed_quote_start("hello"), None);
	assert_eq!(find_unclosed_quote_start("hello \"world"), Some(6));
	assert_eq!(find_unclosed_quote_start("\"hello\" world"), None);
	assert_eq!(find_unclosed_quote_start("\"hello\" \"world"), Some(8));
}

#[test]
fn test_parse_path_prefix() {
	let p = parse_path_prefix("hello");
	assert_eq!(p.raw, "hello");
	assert!(!p.is_at);
	assert!(!p.is_quoted);

	let p = parse_path_prefix("@hello");
	assert_eq!(p.raw, "hello");
	assert!(p.is_at);

	let p = parse_path_prefix("@\"hello");
	assert_eq!(p.raw, "hello");
	assert!(p.is_at);
	assert!(p.is_quoted);

	let p = parse_path_prefix("\"hello");
	assert_eq!(p.raw, "hello");
	assert!(!p.is_at);
	assert!(p.is_quoted);
}

#[test]
fn test_build_completion_value() {
	assert_eq!(build_completion_value("src/", true, false, false), "src/");
	assert_eq!(build_completion_value("file.rs", false, true, false), "@file.rs");
	assert_eq!(build_completion_value("my file.rs", false, false, false), "\"my file.rs\"");
	assert_eq!(build_completion_value("my dir/", true, true, true), "@\"my dir/");
}

#[test]
fn test_extract_path_prefix_natural() {
	assert_eq!(
		CombinedAutocompleteProvider::extract_path_prefix("hello src/", false),
		Some("src/".to_owned())
	);
	assert_eq!(CombinedAutocompleteProvider::extract_path_prefix("hello", false), None);
	assert_eq!(
		CombinedAutocompleteProvider::extract_path_prefix("./foo", false),
		Some("./foo".to_owned())
	);
}

#[test]
fn test_extract_path_prefix_forced() {
	assert_eq!(
		CombinedAutocompleteProvider::extract_path_prefix("hello", true),
		Some("hello".to_owned())
	);
	assert_eq!(
		CombinedAutocompleteProvider::extract_path_prefix("hey /", true),
		Some("/".to_owned())
	);
}


#[test]
fn test_apply_completion_slash_command() {
	let commands = vec![CommandEntry::Item(AutocompleteItem::new("model", "model"))];
	let provider = CombinedAutocompleteProvider::new(commands, PathBuf::from("/tmp"));

	let item = AutocompleteItem::new("model", "model");
	let result = provider.complete_item(&["/mo".to_owned()], 0, 3, &item, "/mo");
	assert_eq!(result.lines[0], "/model ");
	assert_eq!(result.cursor_col, 7);
}

#[test]
fn test_apply_completion_at_prefix() {
	let provider = CombinedAutocompleteProvider::new(Vec::new(), PathBuf::from("/tmp"));

	let item = AutocompleteItem::new("@src/main.rs", "main.rs");
	let result = provider.complete_item(&["@sr".to_owned()], 0, 3, &item, "@sr");
	assert_eq!(result.lines[0], "@src/main.rs ");
	assert_eq!(result.cursor_col, 13);
}


#[test]
fn test_should_trigger_file_completion() {
	assert!(CombinedAutocompleteProvider::should_trigger_file_completion(
		&["hello world".to_owned()],
		0,
		11
	));
	assert!(!CombinedAutocompleteProvider::should_trigger_file_completion(
		&["/model".to_owned()],
		0,
		6
	));
	assert!(CombinedAutocompleteProvider::should_trigger_file_completion(
		&["/model sonnet".to_owned()],
		0,
		13
	));
}


#[test]
fn fuzzy_score_values_per_kind_of_match() {
	assert_eq!(fuzzy_score("", "abc"), 1);
	assert_eq!(fuzzy_score("abc", "abc"), 100);
	assert_eq!(fuzzy_score("ab", "abc"), 80);
	assert_eq!(fuzzy_score("bc", "abc"), 60);
	// "a" then "c" one byte apart: one gap.
	assert_eq!(fuzzy_score("ac", "abc"), 35);
	assert_eq!(fuzzy_score("xyz", "abc"), 0);
}

#[test]
fn test_file_suggestions_basic() {
	let entries = vec![entry("foo.rs", false), entry("bar.rs", false), entry("src", true)];
	let suggestions = file_suggestions_from_entries("", &entries);
	assert!(suggestions.len() >= 3);
	assert!(suggestions.iter().any(|s| s.label == "src/"));
	assert!(suggestions.iter().any(|s| s.label == "foo.rs"));
}

#[test]
fn test_file_suggestions_prefix_filter() {
	let entries = vec![entry("foo.rs", false), entry("bar.rs", false)];
	let suggestions = file_suggestions_from_entries("fo", &entries);
	assert_eq!(suggestions.len(), 1);
	assert_eq!(suggestions[0].label, "foo.rs");
}

#[test]
fn test_file_suggestions_excludes_git() {
	let entries = vec![entry(".git", true), entry(".github", true), entry("file.rs", false)];
	let suggestions = file_suggestions_from_entries("", &entries);
	assert!(suggestions.iter().any(|s| s.label == ".github/"));
	assert!(!suggestions.iter().any(|s| s.label == ".git/" || s.label == ".git"));
}

#[test]
fn test_file_suggestions_directories_first() {
	let entries = vec![entry("aaa.rs", false), entry("bbb", true)];
	let suggestions = file_suggestions_from_entries("", &entries);
	// Directory should come first despite alphabetical order
	assert_eq!(suggestions[0].label, "bbb/");
}

#[test]
fn file_suggestions_values_and_order() {
	let entries = vec![
		entry("Zeta.md", false),
		entry("alpha", true),
		entry("beta.rs", false),
		entry("Alpha.txt", false),
	];
	let s = file_suggestions_from_entries("src/", &entries);
	let labels: Vec<&str> = s.iter().map(|i| i.label.as_str()).collect();
	assert_eq!(labels, vec!["alpha/", "Alpha.txt", "Zeta.md", "beta.rs"]);
	assert_eq!(s[0].value, "src/alpha/");
	assert_eq!(s[1].value, "src/Alpha.txt");
	// Case-insensitive name filter, `@` and quotes carried over.
	let s = file_suggestions_from_entries("@src/a", &entries);
	let values: Vec<&str> = s.iter().map(|i| i.value.as_str()).collect();
	assert_eq!(values, vec!["@src/alpha/", "@src/Alpha.txt"]);
	let s = file_suggestions_from_entries("\"my dir/b", &entries);
	assert_eq!(s[0].value, "\"my dir/beta.rs\"");
}

#[test]
fn file_search_plan_splits_directory_and_name() {
	assert_eq!(file_search_plan(""), (String::new(), String::new()));
	assert_eq!(file_search_plan("src/"), ("src/".to_owned(), String::new()));
	assert_eq!(file_search_plan("src/ma"), ("src".to_owned(), "ma".to_owned()));
	assert_eq!(file_search_plan("ma"), (String::new(), "ma".to_owned()));
	assert_eq!(file_search_plan("@~/doc"), ("~".to_owned(), "doc".to_owned()));
	assert_eq!(file_search_plan("~"), ("~".to_owned(), String::new()));
	assert_eq!(file_search_plan("/usr/lo"), ("/usr".to_owned(), "lo".to_owned()));
}

#[test]
fn relative_paths_keep_the_typed_directory() {
	assert_eq!(build_relative_path("src/", "main.rs"), "src/main.rs");
	assert_eq!(build_relative_path("src/ma", "main.rs"), "src/main.rs");
	assert_eq!(build_relative_path("ma", "main.rs"), "main.rs");
	assert_eq!(build_relative_path("~/do", "docs"), "~/docs");
	assert_eq!(build_relative_path("~/a/b", "bin"), "~/a/bin");
	assert_eq!(build_relative_path("/us", "usr"), "/usr");
	assert_eq!(build_relative_path("/usr/lo", "local"), "/usr/local");
	assert_eq!(build_relative_path("~", "x"), "~/x");
	assert_eq!(build_relative_path("./a/b", "c"), "./a/c");
}

#[test]
fn provider_lists_the_typed_directory() {
	let source = fake_dirs(vec![("src", vec![entry("main.rs", false), entry("lib.rs", false)])]);
	let mut provider = CombinedAutocompleteProvider::with_source(Vec::new(), PathBuf::from("/tmp"), source);
	let result = provider.get_suggestions(&["see src/ma".to_owned()], 0, 10).unwrap();
	assert_eq!(result.prefix, "src/ma");
	assert_eq!(result.items.len(), 1);
	assert_eq!(result.items[0].value, "src/main.rs");
	// Nothing path-like before the cursor: no suggestions.
	assert!(provider.get_suggestions(&["hello".to_owned()], 0, 5).is_none());
}

#[test]
fn test_force_file_suggestions_after_command() {
	let source = fake_dirs(vec![("/", vec![entry("file.txt", false)])]);
	let mut provider = CombinedAutocompleteProvider::with_source(Vec::new(), PathBuf::from("/tmp"), source);
	let result = provider.get_force_file_suggestions(&["/command /".to_owned()], 0, 10);
	// Should trigger because we're past the command name
	assert!(result.is_some());
	assert_eq!(result.unwrap().prefix, "/");
}

#[test]
fn at_reference_without_path_lists_base_directory() {
	let source = fake_dirs(vec![("", vec![entry("notes.md", false)])]);
	let mut provider = CombinedAutocompleteProvider::with_source(Vec::new(), PathBuf::from("/tmp"), source);
	let result = provider.get_suggestions(&["look @".to_owned()], 0, 6).unwrap();
	assert_eq!(result.prefix, "@");
	assert_eq!(result.items[0].value, "@notes.md");
}

#[test]
fn provider_hooks_report_bad_cursor() {
	let mut provider = CombinedAutocompleteProvider::new(Vec::new(), PathBuf::from("/tmp"));
	// Column 1 is inside the two-byte "é".
	assert!(!provider.should_trigger_file_completion(&["é".to_owned()], 0, 1));
	assert!(provider.get_suggestions(&["é".to_owned()], 0, 1).is_none());
	assert!(provider.should_trigger_file_completion(&["a b".to_owned()], 0, 3));
	assert!(!provider.should_trigger_file_completion(&["/mod".to_owned()], 0, 4));
}
