//! Which syntax a file's name asks for. Highlighting itself (the syntax
//! definitions and their colours) is the application's; here stands the
//! decision from the name: special file names, then the extension, matched
//! against the language aliases.

use vstd::prelude::*;

use crate::components::autocomplete::{opt_text, starts, starts_with_chars};
use crate::keys::match_key::{ascii_lower, ci_eq, ci_eq_str, lower_char};
use crate::strs::{chars_of, str_eq, string_from_chars, string_from_range};

verus! {

/// The syntax named by an alias (such as `rs` or `python`), matched up to
/// ASCII case; the first alias group that holds it decides.
pub open spec fn alias_target(e: Seq<char>) -> Option<Seq<char>> {
    if ci_eq(e, "ts"@) || ci_eq(e, "tsx"@) || ci_eq(e, "typescript"@) || ci_eq(e, "js"@) || ci_eq(e, "jsx"@) || ci_eq(e, "javascript"@) || ci_eq(e, "mjs"@) || ci_eq(e, "cjs"@) {
        Some("JavaScript"@)
    } else if ci_eq(e, "py"@) || ci_eq(e, "python"@) {
        Some("Python"@)
    } else if ci_eq(e, "rb"@) || ci_eq(e, "ruby"@) {
        Some("Ruby"@)
    } else if ci_eq(e, "rs"@) || ci_eq(e, "rust"@) {
        Some("Rust"@)
    } else if ci_eq(e, "go"@) || ci_eq(e, "golang"@) {
        Some("Go"@)
    } else if ci_eq(e, "java"@) {
        Some("Java"@)
    } else if ci_eq(e, "kt"@) || ci_eq(e, "kotlin"@) {
        Some("Java"@)
    } else if ci_eq(e, "swift"@) {
        Some("Objective-C"@)
    } else if ci_eq(e, "c"@) || ci_eq(e, "h"@) {
        Some("C"@)
    } else if ci_eq(e, "cpp"@) || ci_eq(e, "cc"@) || ci_eq(e, "cxx"@) || ci_eq(e, "c++"@) || ci_eq(e, "hpp"@) || ci_eq(e, "hxx"@) || ci_eq(e, "hh"@) {
        Some("C++"@)
    } else if ci_eq(e, "cs"@) || ci_eq(e, "csharp"@) {
        Some("C#"@)
    } else if ci_eq(e, "php"@) {
        Some("PHP"@)
    } else if ci_eq(e, "sh"@) || ci_eq(e, "bash"@) || ci_eq(e, "zsh"@) || ci_eq(e, "shell"@) {
        Some("Bash"@)
    } else if ci_eq(e, "fish"@) {
        Some("Shell-Unix-Generic"@)
    } else if ci_eq(e, "ps1"@) || ci_eq(e, "powershell"@) {
        Some("PowerShell"@)
    } else if ci_eq(e, "html"@) || ci_eq(e, "htm"@) {
        Some("HTML"@)
    } else if ci_eq(e, "css"@) {
        Some("CSS"@)
    } else if ci_eq(e, "scss"@) {
        Some("SCSS"@)
    } else if ci_eq(e, "sass"@) {
        Some("Sass"@)
    } else if ci_eq(e, "less"@) {
        Some("LESS"@)
    } else if ci_eq(e, "json"@) {
        Some("JSON"@)
    } else if ci_eq(e, "yaml"@) || ci_eq(e, "yml"@) {
        Some("YAML"@)
    } else if ci_eq(e, "toml"@) {
        Some("TOML"@)
    } else if ci_eq(e, "xml"@) {
        Some("XML"@)
    } else if ci_eq(e, "md"@) || ci_eq(e, "markdown"@) {
        Some("Markdown"@)
    } else if ci_eq(e, "sql"@) {
        Some("SQL"@)
    } else if ci_eq(e, "lua"@) {
        Some("Lua"@)
    } else if ci_eq(e, "perl"@) || ci_eq(e, "pl"@) {
        Some("Perl"@)
    } else if ci_eq(e, "r"@) {
        Some("R"@)
    } else if ci_eq(e, "scala"@) {
        Some("Scala"@)
    } else if ci_eq(e, "clj"@) || ci_eq(e, "clojure"@) {
        Some("Clojure"@)
    } else if ci_eq(e, "ex"@) || ci_eq(e, "exs"@) || ci_eq(e, "elixir"@) {
        Some("Ruby"@)
    } else if ci_eq(e, "erl"@) || ci_eq(e, "erlang"@) {
        Some("Erlang"@)
    } else if ci_eq(e, "hs"@) || ci_eq(e, "haskell"@) {
        Some("Haskell"@)
    } else if ci_eq(e, "ml"@) || ci_eq(e, "ocaml"@) {
        Some("OCaml"@)
    } else if ci_eq(e, "vim"@) {
        Some("VimL"@)
    } else if ci_eq(e, "graphql"@) || ci_eq(e, "gql"@) {
        Some("GraphQL"@)
    } else if ci_eq(e, "proto"@) || ci_eq(e, "protobuf"@) {
        Some("Protocol Buffers"@)
    } else if ci_eq(e, "tf"@) || ci_eq(e, "hcl"@) || ci_eq(e, "terraform"@) {
        Some("Terraform"@)
    } else if ci_eq(e, "dockerfile"@) || ci_eq(e, "docker"@) {
        Some("Dockerfile"@)
    } else if ci_eq(e, "makefile"@) || ci_eq(e, "make"@) {
        Some("Makefile"@)
    } else if ci_eq(e, "cmake"@) {
        Some("CMake"@)
    } else if ci_eq(e, "ini"@) || ci_eq(e, "cfg"@) || ci_eq(e, "conf"@) || ci_eq(e, "config"@) || ci_eq(e, "properties"@) {
        Some("INI"@)
    } else if ci_eq(e, "diff"@) || ci_eq(e, "patch"@) {
        Some("Diff"@)
    } else if ci_eq(e, "gitignore"@) || ci_eq(e, "gitattributes"@) || ci_eq(e, "gitmodules"@) {
        Some("Git Ignore"@)
    } else {
        None
    }
}

/// The syntax named by alias `e` (up to ASCII case).
pub fn find_alias(e: &str) -> (r: Option<String>)
    ensures
        opt_text(r) == alias_target(e@),
{
    if ci_eq_str(e, "ts") || ci_eq_str(e, "tsx") || ci_eq_str(e, "typescript") || ci_eq_str(e, "js") || ci_eq_str(e, "jsx") || ci_eq_str(e, "javascript") || ci_eq_str(e, "mjs") || ci_eq_str(e, "cjs") {
        return Some(String::from_str("JavaScript"));
    }
    if ci_eq_str(e, "py") || ci_eq_str(e, "python") {
        return Some(String::from_str("Python"));
    }
    if ci_eq_str(e, "rb") || ci_eq_str(e, "ruby") {
        return Some(String::from_str("Ruby"));
    }
    if ci_eq_str(e, "rs") || ci_eq_str(e, "rust") {
        return Some(String::from_str("Rust"));
    }
    if ci_eq_str(e, "go") || ci_eq_str(e, "golang") {
        return Some(String::from_str("Go"));
    }
    if ci_eq_str(e, "java") {
        return Some(String::from_str("Java"));
    }
    if ci_eq_str(e, "kt") || ci_eq_str(e, "kotlin") {
        return Some(String::from_str("Java"));
    }
    if ci_eq_str(e, "swift") {
        return Some(String::from_str("Objective-C"));
    }
    if ci_eq_str(e, "c") || ci_eq_str(e, "h") {
        return Some(String::from_str("C"));
    }
    if ci_eq_str(e, "cpp") || ci_eq_str(e, "cc") || ci_eq_str(e, "cxx") || ci_eq_str(e, "c++") || ci_eq_str(e, "hpp") || ci_eq_str(e, "hxx") || ci_eq_str(e, "hh") {
        return Some(String::from_str("C++"));
    }
    if ci_eq_str(e, "cs") || ci_eq_str(e, "csharp") {
        return Some(String::from_str("C#"));
    }
    if ci_eq_str(e, "php") {
        return Some(String::from_str("PHP"));
    }
    if ci_eq_str(e, "sh") || ci_eq_str(e, "bash") || ci_eq_str(e, "zsh") || ci_eq_str(e, "shell") {
        return Some(String::from_str("Bash"));
    }
    if ci_eq_str(e, "fish") {
        return Some(String::from_str("Shell-Unix-Generic"));
    }
    if ci_eq_str(e, "ps1") || ci_eq_str(e, "powershell") {
        return Some(String::from_str("PowerShell"));
    }
    if ci_eq_str(e, "html") || ci_eq_str(e, "htm") {
        return Some(String::from_str("HTML"));
    }
    if ci_eq_str(e, "css") {
        return Some(String::from_str("CSS"));
    }
    if ci_eq_str(e, "scss") {
        return Some(String::from_str("SCSS"));
    }
    if ci_eq_str(e, "sass") {
        return Some(String::from_str("Sass"));
    }
    if ci_eq_str(e, "less") {
        return Some(String::from_str("LESS"));
    }
    if ci_eq_str(e, "json") {
        return Some(String::from_str("JSON"));
    }
    if ci_eq_str(e, "yaml") || ci_eq_str(e, "yml") {
        return Some(String::from_str("YAML"));
    }
    if ci_eq_str(e, "toml") {
        return Some(String::from_str("TOML"));
    }
    if ci_eq_str(e, "xml") {
        return Some(String::from_str("XML"));
    }
    if ci_eq_str(e, "md") || ci_eq_str(e, "markdown") {
        return Some(String::from_str("Markdown"));
    }
    if ci_eq_str(e, "sql") {
        return Some(String::from_str("SQL"));
    }
    if ci_eq_str(e, "lua") {
        return Some(String::from_str("Lua"));
    }
    if ci_eq_str(e, "perl") || ci_eq_str(e, "pl") {
        return Some(String::from_str("Perl"));
    }
    if ci_eq_str(e, "r") {
        return Some(String::from_str("R"));
    }
    if ci_eq_str(e, "scala") {
        return Some(String::from_str("Scala"));
    }
    if ci_eq_str(e, "clj") || ci_eq_str(e, "clojure") {
        return Some(String::from_str("Clojure"));
    }
    if ci_eq_str(e, "ex") || ci_eq_str(e, "exs") || ci_eq_str(e, "elixir") {
        return Some(String::from_str("Ruby"));
    }
    if ci_eq_str(e, "erl") || ci_eq_str(e, "erlang") {
        return Some(String::from_str("Erlang"));
    }
    if ci_eq_str(e, "hs") || ci_eq_str(e, "haskell") {
        return Some(String::from_str("Haskell"));
    }
    if ci_eq_str(e, "ml") || ci_eq_str(e, "ocaml") {
        return Some(String::from_str("OCaml"));
    }
    if ci_eq_str(e, "vim") {
        return Some(String::from_str("VimL"));
    }
    if ci_eq_str(e, "graphql") || ci_eq_str(e, "gql") {
        return Some(String::from_str("GraphQL"));
    }
    if ci_eq_str(e, "proto") || ci_eq_str(e, "protobuf") {
        return Some(String::from_str("Protocol Buffers"));
    }
    if ci_eq_str(e, "tf") || ci_eq_str(e, "hcl") || ci_eq_str(e, "terraform") {
        return Some(String::from_str("Terraform"));
    }
    if ci_eq_str(e, "dockerfile") || ci_eq_str(e, "docker") {
        return Some(String::from_str("Dockerfile"));
    }
    if ci_eq_str(e, "makefile") || ci_eq_str(e, "make") {
        return Some(String::from_str("Makefile"));
    }
    if ci_eq_str(e, "cmake") {
        return Some(String::from_str("CMake"));
    }
    if ci_eq_str(e, "ini") || ci_eq_str(e, "cfg") || ci_eq_str(e, "conf") || ci_eq_str(e, "config") || ci_eq_str(e, "properties") {
        return Some(String::from_str("INI"));
    }
    if ci_eq_str(e, "diff") || ci_eq_str(e, "patch") {
        return Some(String::from_str("Diff"));
    }
    if ci_eq_str(e, "gitignore") || ci_eq_str(e, "gitattributes") || ci_eq_str(e, "gitmodules") {
        return Some(String::from_str("Git Ignore"));
    }
    None
}

/// Whether `lang` is one of the aliases.
pub fn is_known_alias(lang: &str) -> (r: bool)
    ensures
        r == (alias_target(lang@) is Some),
{
    find_alias(lang).is_some()
}

/// The last index below `i` where `c` occurs in `s`.
pub open spec fn last_index_below(s: Seq<char>, c: char, i: int) -> Option<int>
    decreases i,
{
    if i <= 0 || i > s.len() {
        None
    } else if s[i - 1] == c {
        Some(i - 1)
    } else {
        last_index_below(s, c, i - 1)
    }
}

/// The part of a path after its last `/`.
pub open spec fn base_name(p: Seq<char>) -> Seq<char> {
    match last_index_below(p, '/', p.len() as int) {
        Some(k) => p.skip(k + 1),
        None => p,
    }
}

/// `s` with ASCII letters in lower case.
pub open spec fn lower_ascii(s: Seq<char>) -> Seq<char> {
    s.map_values(|c: char| ascii_lower(c))
}

/// What a file name asks for: a syntax known from the name or its
/// extension's alias, an extension for the application to look up among
/// its syntaxes, or nothing (a name without extension).
pub enum LanguageLookup {
    Named(String),
    ByExtension(String),
    Unknown,
}

/// The lookup for path `p`: on its base name in lower case, `.env…` files
/// are `ini`, `.gitignore`, `.gitattributes` and `.gitmodules` are
/// `gitignore`, `.editorconfig` and `.npmrc` are `ini`, `dockerfile` and
/// `makefile` name themselves; otherwise the text after the last `.` is the
/// extension, looked up among the aliases.
pub open spec fn lookup_matches(r: LanguageLookup, p: Seq<char>) -> bool {
    let lower = lower_ascii(base_name(p));
    if starts(lower, ".env"@) {
        r matches LanguageLookup::Named(x) && x@ == "ini"@
    } else if lower == ".gitignore"@ || lower == ".gitattributes"@ || lower == ".gitmodules"@ {
        r matches LanguageLookup::Named(x) && x@ == "gitignore"@
    } else if lower == ".editorconfig"@ || lower == ".npmrc"@ {
        r matches LanguageLookup::Named(x) && x@ == "ini"@
    } else if lower == "dockerfile"@ {
        r matches LanguageLookup::Named(x) && x@ == "dockerfile"@
    } else if lower == "makefile"@ {
        r matches LanguageLookup::Named(x) && x@ == "makefile"@
    } else {
        match last_index_below(lower, '.', lower.len() as int) {
            None => r is Unknown,
            Some(d) => match alias_target(lower.skip(d + 1)) {
                Some(x) => r matches LanguageLookup::Named(y) && y@ == x,
                None => r matches LanguageLookup::ByExtension(y) && y@ == lower.skip(d + 1),
            },
        }
    }
}

/// The last index below `n` where `c` occurs in `v`.
fn last_index_of(v: &Vec<char>, c: char) -> (r: Option<usize>)
    ensures
        match r {
            Some(k) => last_index_below(v@, c, v@.len() as int) == Some(k as int),
            None => last_index_below(v@, c, v@.len() as int) is None,
        },
        r matches Some(k) ==> k < v@.len(),
{
    let mut i = v.len();
    while i > 0 && v[i - 1] != c
        invariant
            i <= v@.len(),
            last_index_below(v@, c, v@.len() as int) == last_index_below(v@, c, i as int),
        decreases i,
    {
        i = i - 1;
    }
    if i == 0 {
        None
    } else {
        Some(i - 1)
    }
}

/// What the file name of `path` asks for (see `lookup_matches`).
pub fn language_from_path(path: &str) -> (r: LanguageLookup)
    ensures
        lookup_matches(r, path@),
{
    let pv = chars_of(path);
    let start = match last_index_of(&pv, '/') {
        Some(k) => {
            assert(k < pv.len());
            k + 1
        },
        None => 0,
    };
    let mut lv: Vec<char> = Vec::new();
    let mut i = start;
    while i < pv.len()
        invariant
            start <= i <= pv@.len(),
            lv@ == lower_ascii(pv@.subrange(start as int, i as int)),
        decreases pv@.len() - i,
    {
        lv.push(lower_char(pv[i]));
        i = i + 1;
        assert(lv@ =~= lower_ascii(pv@.subrange(start as int, i as int)));
    }
    assert(pv@.subrange(start as int, pv@.len() as int) =~= base_name(path@));
    let lower = string_from_chars(lv.as_slice());
    let l = lower.as_str();
    if starts_with_chars(&lv, &chars_of(".env")) {
        return LanguageLookup::Named(String::from_str("ini"));
    }
    if str_eq(l, ".gitignore") || str_eq(l, ".gitattributes") || str_eq(l, ".gitmodules") {
        return LanguageLookup::Named(String::from_str("gitignore"));
    }
    if str_eq(l, ".editorconfig") || str_eq(l, ".npmrc") {
        return LanguageLookup::Named(String::from_str("ini"));
    }
    if str_eq(l, "dockerfile") {
        return LanguageLookup::Named(String::from_str("dockerfile"));
    }
    if str_eq(l, "makefile") {
        return LanguageLookup::Named(String::from_str("makefile"));
    }
    match last_index_of(&lv, '.') {
        None => LanguageLookup::Unknown,
        Some(d) => {
            let ext = string_from_range(lv.as_slice(), d + 1, lv.len());
            assert(ext@ =~= lv@.skip(d + 1));
            match find_alias(ext.as_str()) {
                Some(x) => LanguageLookup::Named(x),
                None => LanguageLookup::ByExtension(ext),
            }
        },
    }
}

} // verus!
