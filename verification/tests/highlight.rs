use rho_tui::highlight::{find_alias, is_known_alias, language_from_path, LanguageLookup};

/// The syntax a path names; an extension without an alias has none here
/// (its lookup among syntax definitions is the application's).
fn lang(path: &str) -> Option<String> {
	match language_from_path(path) {
		LanguageLookup::Named(x) => Some(x),
		LanguageLookup::ByExtension(_) | LanguageLookup::Unknown => None,
	}
}

#[test]
fn test_supports_language() {
	assert!(is_known_alias("rust"));
	assert!(is_known_alias("python"));
	assert!(is_known_alias("ts"));
	assert!(is_known_alias("JavaScript"));
}

#[test]
fn test_language_from_path_common_extensions() {
	assert_eq!(lang("src/main.rs").as_deref(), Some("Rust"));
	assert_eq!(lang("lib.py").as_deref(), Some("Python"));
	assert_eq!(lang("app.ts").as_deref(), Some("JavaScript"));
	assert_eq!(lang("index.html").as_deref(), Some("HTML"));
	assert_eq!(lang("style.css").as_deref(), Some("CSS"));
	assert_eq!(lang("config.json").as_deref(), Some("JSON"));
	assert_eq!(lang("data.yaml").as_deref(), Some("YAML"));
	assert_eq!(lang("Cargo.toml").as_deref(), Some("TOML"));
}

#[test]
fn test_language_from_path_special_basenames() {
	assert_eq!(lang("Dockerfile").as_deref(), Some("dockerfile"));
	assert_eq!(lang("Makefile").as_deref(), Some("makefile"));
	assert_eq!(lang(".gitignore").as_deref(), Some("gitignore"));
	assert_eq!(lang(".gitattributes").as_deref(), Some("gitignore"));
	assert_eq!(lang(".env").as_deref(), Some("ini"));
	assert_eq!(lang(".env.local").as_deref(), Some("ini"));
	assert_eq!(lang(".editorconfig").as_deref(), Some("ini"));
	assert_eq!(lang(".npmrc").as_deref(), Some("ini"));
}

#[test]
fn test_language_from_path_full_paths() {
	assert_eq!(lang("/home/user/project/src/main.rs").as_deref(), Some("Rust"));
	assert_eq!(lang("crates/rho/src/lib.rs").as_deref(), Some("Rust"));
}

#[test]
fn test_language_from_path_unknown() {
	assert!(lang("file.unknownext123").is_none());
	assert!(lang("noextension").is_none());
}

#[test]
fn extension_lookup_kinds() {
	assert!(matches!(language_from_path("noextension"), LanguageLookup::Unknown));
	match language_from_path("dir.d/FILE.UNKNOWNEXT") {
		LanguageLookup::ByExtension(e) => assert_eq!(e, "unknownext"),
		_ => panic!("expected an extension lookup"),
	}
	assert_eq!(find_alias("C++").as_deref(), Some("C++"));
	assert_eq!(find_alias("YML").as_deref(), Some("YAML"));
	assert_eq!(find_alias("nope"), None);
}
