//! Autocomplete: slash-command and file-path completion. Here stand the
//! parts that read text: finding the path or `@` reference before the
//! cursor, fuzzy matching and scoring, ranking slash commands, applying a
//! chosen completion, and the provider the editor asks. What only the
//! application knows (argument completions, hints, the files on disk) it
//! supplies through `CompletionSource`.

use std::path::PathBuf;

use vstd::prelude::*;
use vstd::string::*;
use vstd::utf8::*;

use crate::bytes::{find_from, find_subsequence};
use crate::components::editor::{AutocompleteProvider, AutocompleteSuggestions};
use crate::components::editor::state::col_at_boundary;
use crate::components::file_completion::{
    entry_views, file_items_spec, file_search_plan, file_suggestions_from_entries, parsed_quoted, parsed_raw,
    DirEntryInfo,
};
use crate::components::select_list::{to_lowercase, unicode_lower, SelectItem};
use crate::strs::{
    byte_length, char_index_from, chars_of, lemma_ascii_boundary, lemma_boundary_ends,
    seq_find, string_from_range, substring_bytes, trim, trim_string,
};

verus! {

#[verifier::external_type_specification]
#[verifier::external_body]
pub struct ExPathBuf(std::path::PathBuf);

/// An autocomplete suggestion.
#[derive(Debug, Clone)]
pub struct AutocompleteItem {
    pub value: String,
    pub label: String,
    pub description: Option<String>,
    /// Dim hint shown beside the item while it is selected.
    pub hint: Option<String>,
}

impl AutocompleteItem {
    pub fn new(value: &str, label: &str) -> (r: AutocompleteItem)
        ensures
            r.value@ == value@,
            r.label@ == label@,
            r.description is None,
            r.hint is None,
    {
        AutocompleteItem { value: String::from_str(value), label: String::from_str(label), description: None, hint: None }
    }

    /// The item with a description.
    pub fn with_description(self, desc: &str) -> (r: AutocompleteItem)
        ensures
            r.value == self.value && r.label == self.label && r.hint == self.hint,
            r.description matches Some(d) && d@ == desc@,
    {
        let mut r = self;
        r.description = Some(String::from_str(desc));
        r
    }
}

/// A slash command: its name and description.
#[derive(Debug, Clone)]
pub struct SlashCommand {
    pub name: String,
    pub description: Option<String>,
}

/// A registered command: a slash command or a plain item.
#[derive(Debug, Clone)]
pub enum CommandEntry {
    Slash(SlashCommand),
    Item(AutocompleteItem),
}

/// Suggestions, and the text before the cursor they match.
#[derive(Debug, Clone)]
pub struct SuggestionResult {
    pub items: Vec<AutocompleteItem>,
    pub prefix: String,
}

/// Lines and cursor after a completion.
#[derive(Debug, Clone)]
pub struct CompletionResult {
    pub lines: Vec<String>,
    pub cursor_line: usize,
    pub cursor_col: usize,
}

/// The bytes that end a path token: space, tab, double and single quote,
/// and `=`.
pub open spec fn path_delim(b: u8) -> bool {
    b == 0x20 || b == 0x09 || b == 0x22 || b == 0x27 || b == 0x3d
}

fn is_path_delim(b: u8) -> (r: bool)
    ensures
        r == path_delim(b),
{
    b == 0x20 || b == 0x09 || b == 0x22 || b == 0x27 || b == 0x3d
}

/// The last position below `n` of a path delimiter in `b`.
pub open spec fn last_delim_before(b: Seq<u8>, n: int) -> Option<int>
    decreases n,
{
    if n <= 0 {
        None
    } else if path_delim(b[n - 1]) {
        Some(n - 1)
    } else {
        last_delim_before(b, n - 1)
    }
}

proof fn lemma_last_delim_range(b: Seq<u8>, n: int)
    ensures
        last_delim_before(b, n) matches Some(k) ==> 0 <= k < n && path_delim(b[k]),
    decreases n,
{
    if n > 0 && !path_delim(b[n - 1]) {
        lemma_last_delim_range(b, n - 1);
    }
}

/// The byte offset of the last path delimiter in `text`.
pub fn find_last_delimiter(text: &str) -> (r: Option<usize>)
    ensures
        match r {
            Some(k) => last_delim_before(encode_utf8(text@), encode_utf8(text@).len() as int) == Some(k as int),
            None => last_delim_before(encode_utf8(text@), encode_utf8(text@).len() as int) is None,
        },
{
    let b = text.as_bytes();
    let mut n = b.len();
    while n > 0 && !is_path_delim(b[n - 1])
        invariant
            n <= b@.len(),
            last_delim_before(b@, b@.len() as int) == last_delim_before(b@, n as int),
        decreases n,
    {
        n = n - 1;
    }
    if n == 0 {
        None
    } else {
        Some(n - 1)
    }
}

/// Scanning `b` from `i` for double quotes: the start of the quote still
/// open at the end, given whether one is open and where it started.
pub open spec fn open_quote_from(b: Seq<u8>, i: int, open: bool, start: int) -> Option<int>
    decreases b.len() - i,
{
    if i < 0 || i >= b.len() {
        if open {
            Some(start)
        } else {
            None
        }
    } else if b[i] == 0x22 {
        open_quote_from(b, i + 1, !open, if !open { i } else { start })
    } else {
        open_quote_from(b, i + 1, open, start)
    }
}

proof fn lemma_open_quote_range(b: Seq<u8>, i: int, open: bool, start: int)
    requires
        0 <= i,
        open ==> 0 <= start < b.len() && b[start] == 0x22,
    ensures
        open_quote_from(b, i, open, start) matches Some(k) ==> 0 <= k < b.len() && b[k] == 0x22,
    decreases b.len() - i,
{
    if i < b.len() {
        if b[i] == 0x22 {
            lemma_open_quote_range(b, i + 1, !open, if !open { i } else { start });
        } else {
            lemma_open_quote_range(b, i + 1, open, start);
        }
    }
}

/// The byte offset of the double quote that is still open at the end of
/// `text`.
pub fn find_unclosed_quote_start(text: &str) -> (r: Option<usize>)
    ensures
        match r {
            Some(k) => open_quote_from(encode_utf8(text@), 0, false, 0) == Some(k as int),
            None => open_quote_from(encode_utf8(text@), 0, false, 0) is None,
        },
{
    let b = text.as_bytes();
    let mut in_quotes = false;
    let mut quote_start: usize = 0;
    let mut i: usize = 0;
    while i < b.len()
        invariant
            i <= b@.len(),
            open_quote_from(b@, 0, false, 0) == open_quote_from(b@, i as int, in_quotes, quote_start as int),
        decreases b@.len() - i,
    {
        if b[i] == 0x22 {
            if !in_quotes {
                quote_start = i;
            }
            in_quotes = !in_quotes;
        }
        i = i + 1;
    }
    if in_quotes {
        Some(quote_start)
    } else {
        None
    }
}

/// Whether byte offset `i` of `b` starts a token: the start of the text or
/// just after a path delimiter.
pub open spec fn token_start(b: Seq<u8>, i: int) -> bool {
    i == 0 || path_delim(b[i - 1])
}

/// Whether byte offset `i` starts a token.
pub fn is_token_start(text: &str, i: usize) -> (r: bool)
    requires
        i <= encode_utf8(text@).len(),
    ensures
        r == token_start(encode_utf8(text@), i as int),
{
    if i == 0 {
        return true;
    }
    is_path_delim(text.as_bytes()[i - 1])
}

/// The quoted reference at the end of `b`, as a byte offset: the open
/// quote (or the `@` just before it) when it starts a token.
pub open spec fn quoted_prefix_start(b: Seq<u8>) -> Option<int> {
    match open_quote_from(b, 0, false, 0) {
        None => None,
        Some(q) => if q > 0 && b[q - 1] == 0x40 {
            if token_start(b, q - 1) {
                Some(q - 1)
            } else {
                None
            }
        } else if token_start(b, q) {
            Some(q)
        } else {
            None
        },
    }
}

fn quoted_start(text: &str) -> (r: Option<usize>)
    ensures
        match r {
            Some(k) => quoted_prefix_start(encode_utf8(text@)) == Some(k as int) && k < encode_utf8(
                text@,
            ).len() && is_char_boundary(encode_utf8(text@), k as int),
            None => quoted_prefix_start(encode_utf8(text@)) is None,
        },
{
    let b = text.as_bytes();
    let q = match find_unclosed_quote_start(text) {
        Some(q) => q,
        None => {
            return None;
        },
    };
    proof {
        broadcast use encode_utf8_valid_utf8;

        lemma_open_quote_range(b@, 0, false, 0);
        lemma_ascii_boundary(b@, q as int);
    }
    if q > 0 && b[q - 1] == 0x40 {
        if !is_token_start(text, q - 1) {
            return None;
        }
        proof {
            lemma_ascii_boundary(b@, q - 1);
        }
        return Some(q - 1);
    }
    if !is_token_start(text, q) {
        return None;
    }
    Some(q)
}

/// The quoted reference (`"...` or `@"...`) that ends `text`, if it
/// starts a token.
pub fn extract_quoted_prefix(text: &str) -> (r: Option<String>)
    ensures
        match quoted_prefix_start(encode_utf8(text@)) {
            Some(k) => r matches Some(s) && encode_utf8(s@) == encode_utf8(text@).skip(k),
            None => r is None,
        },
{
    match quoted_start(text) {
        Some(k) => {
            let n = byte_length(text);
            proof {
                lemma_boundary_ends(text@);
            }
            let s = substring_bytes(text, k, n);
            assert(encode_utf8(text@).subrange(k as int, n as int) =~= encode_utf8(text@).skip(k as int));
            Some(s)
        },
        None => None,
    }
}

/// A path prefix split into its text and whether it is an `@` reference and
/// quoted.
#[derive(Debug, Clone)]
pub struct ParsedPrefix {
    pub raw: String,
    pub is_at: bool,
    pub is_quoted: bool,
}

/// Whether `p` starts `s`.
pub open spec fn starts(s: Seq<char>, p: Seq<char>) -> bool {
    p.len() <= s.len() && s.take(p.len() as int) == p
}

/// Split a path prefix: a leading `@"`, `"` or `@` marks it.
pub fn parse_path_prefix(prefix: &str) -> (r: ParsedPrefix)
    ensures
        ({
            let p = prefix@;
            if starts(p, seq!['@', '"']) {
                r.raw@ == p.skip(2) && r.is_at && r.is_quoted
            } else if starts(p, seq!['"']) {
                r.raw@ == p.skip(1) && !r.is_at && r.is_quoted
            } else if starts(p, seq!['@']) {
                r.raw@ == p.skip(1) && r.is_at && !r.is_quoted
            } else {
                r.raw@ == p && !r.is_at && !r.is_quoted
            }
        }),
{
    let v = chars_of(prefix);
    let n = v.len();
    if n >= 2 && v[0] == '@' && v[1] == '"' {
        assert(prefix@.take(2) =~= seq!['@', '"']);
        let raw = crate::strs::string_from_range(v.as_slice(), 2, n);
        assert(raw@ =~= prefix@.skip(2));
        return ParsedPrefix { raw, is_at: true, is_quoted: true };
    }
    if n >= 2 {
        assert(!(prefix@.take(2) =~= seq!['@', '"']) ==> !starts(prefix@, seq!['@', '"']));
    }
    if n >= 1 && v[0] == '"' {
        assert(prefix@.take(1) =~= seq!['"']);
        let raw = crate::strs::string_from_range(v.as_slice(), 1, n);
        assert(raw@ =~= prefix@.skip(1));
        return ParsedPrefix { raw, is_at: false, is_quoted: true };
    }
    if n >= 1 && v[0] == '@' {
        assert(prefix@.take(1) =~= seq!['@']);
        assert(prefix@.take(1)[0] == prefix@[0]);
        if n >= 2 {
            assert(prefix@.take(2)[1] == prefix@[1]);
            assert(seq!['@', '"'][1] == '"');
        }
        let raw = crate::strs::string_from_range(v.as_slice(), 1, n);
        assert(raw@ =~= prefix@.skip(1));
        return ParsedPrefix { raw, is_at: true, is_quoted: false };
    }
    if n >= 1 {
        assert(prefix@.take(1)[0] == prefix@[0]);
    }
    ParsedPrefix { raw: String::from_str(prefix), is_at: false, is_quoted: false }
}

/// The text a completion inserts for `path`: `@` for a reference, and
/// quotes when asked for or when the path holds a space (a directory stays
/// open for further completion).
pub open spec fn completion_value(path: Seq<char>, is_directory: bool, is_at: bool, is_quoted: bool) -> Seq<char> {
    let at = if is_at { seq!['@'] } else { Seq::empty() };
    if !(is_quoted || path.contains(' ')) {
        at + path
    } else {
        at + seq!['"'] + path + if is_directory { Seq::empty() } else { seq!['"'] }
    }
}

/// Build the inserted text for a completed path.
pub fn build_completion_value(path: &str, is_directory: bool, is_at: bool, is_quoted: bool) -> (r: String)
    ensures
        r@ == completion_value(path@, is_directory, is_at, is_quoted),
{
    let v = chars_of(path);
    let mut has_space = false;
    let mut i: usize = 0;
    while i < v.len()
        invariant
            v@ == path@,
            i <= v@.len(),
            has_space == (exists|j: int| 0 <= j < i && v@[j] == ' '),
        decreases v@.len() - i,
    {
        if v[i] == ' ' {
            has_space = true;
        }
        i = i + 1;
    }
    let mut s = String::new();
    if is_at {
        s.push('@');
    }
    if !(is_quoted || has_space) {
        s.append(path);
        assert(s@ =~= completion_value(path@, is_directory, is_at, is_quoted));
        return s;
    }
    s.push('"');
    s.append(path);
    if !is_directory {
        s.push('"');
    }
    assert(s@ =~= completion_value(path@, is_directory, is_at, is_quoted));
    s
}

/// Whether `q` is a subsequence of `t`.
pub open spec fn is_subsequence(q: Seq<char>, t: Seq<char>) -> bool
    decreases t.len(),
{
    if q.len() == 0 {
        true
    } else if t.len() == 0 {
        false
    } else if q[0] == t[0] {
        is_subsequence(q.drop_first(), t.drop_first())
    } else {
        is_subsequence(q, t.drop_first())
    }
}

/// How many characters of `q` from `qi` on a greedy scan of `t` from `ti`
/// matches, as the index into `q` it reaches.
pub open spec fn greedy_from(q: Seq<char>, t: Seq<char>, qi: int, ti: int) -> int
    decreases t.len() - ti,
{
    if qi >= q.len() || ti >= t.len() || ti < 0 {
        qi
    } else if q[qi] == t[ti] {
        greedy_from(q, t, qi + 1, ti + 1)
    } else {
        greedy_from(q, t, qi, ti + 1)
    }
}

proof fn lemma_greedy_subsequence(q: Seq<char>, t: Seq<char>, qi: int, ti: int)
    requires
        0 <= qi <= q.len(),
        0 <= ti <= t.len(),
    ensures
        (greedy_from(q, t, qi, ti) >= q.len()) == is_subsequence(q.skip(qi), t.skip(ti)),
        qi <= greedy_from(q, t, qi, ti) <= q.len(),
    decreases t.len() - ti,
{
    if qi >= q.len() {
        assert(q.skip(qi).len() == 0);
    } else if ti >= t.len() {
        assert(t.skip(ti).len() == 0);
    } else {
        assert(q.skip(qi)[0] == q[qi]);
        assert(t.skip(ti)[0] == t[ti]);
        assert(q.skip(qi).drop_first() =~= q.skip(qi + 1));
        assert(t.skip(ti).drop_first() =~= t.skip(ti + 1));
        if q[qi] == t[ti] {
            lemma_greedy_subsequence(q, t, qi + 1, ti + 1);
        } else {
            lemma_greedy_subsequence(q, t, qi, ti + 1);
        }
    }
}

/// Whether `query` matches `target` fuzzily: it is empty, or no longer (in
/// bytes) than `target` and a subsequence of it.
pub open spec fn fuzzy_matches(query: Seq<char>, target: Seq<char>) -> bool {
    query.len() == 0 || (encode_utf8(query).len() <= encode_utf8(target).len() && is_subsequence(
        query,
        target,
    ))
}

/// Check whether `query` is a subsequence of `target`.
pub fn fuzzy_match_subsequence(query: &str, target: &str) -> (r: bool)
    ensures
        r == fuzzy_matches(query@, target@),
{
    let q = chars_of(query);
    let t = chars_of(target);
    if q.len() == 0 {
        return true;
    }
    if byte_length(query) > byte_length(target) {
        return false;
    }
    let mut qi: usize = 0;
    let mut ti: usize = 0;
    while ti < t.len() && qi < q.len()
        invariant
            q@ == query@,
            t@ == target@,
            qi <= q@.len(),
            ti <= t@.len(),
            greedy_from(q@, t@, 0, 0) == greedy_from(q@, t@, qi as int, ti as int),
        decreases t@.len() - ti,
    {
        if q[qi] == t[ti] {
            qi = qi + 1;
        }
        ti = ti + 1;
    }
    proof {
        lemma_greedy_subsequence(q@, t@, 0, 0);
        assert(q@.skip(0) =~= q@);
        assert(t@.skip(0) =~= t@);
    }
    qi >= q.len()
}

/// The greedy scan of `fuzzy_score`: from char `j` of `t` (at byte offset
/// `off`), the query index reached and the gaps counted, a gap being two
/// consecutive matches more than one byte apart.
pub open spec fn gap_scan(q: Seq<char>, t: Seq<char>, qi: int, j: int, off: int, last: Option<int>, gaps: int) -> (int, int)
    decreases t.len() - j,
{
    if j < 0 || j >= t.len() {
        (qi, gaps)
    } else if qi < q.len() && q[qi] == t[j] {
        let g = match last {
            Some(l) => if off - l > 1 { gaps + 1 } else { gaps },
            None => gaps,
        };
        gap_scan(q, t, qi + 1, j + 1, off + encode_utf8(seq![t[j]]).len(), Some(off), g)
    } else {
        gap_scan(q, t, qi, j + 1, off + encode_utf8(seq![t[j]]).len(), last, gaps)
    }
}

/// The fuzzy score of `query` against `target`: 1 for an empty query, 100
/// for equality, 80 for a prefix, 60 for a substring, then for a
/// subsequence 40 less 5 per gap (at least 1), and 0 otherwise.
pub open spec fn fuzzy_score_spec(query: Seq<char>, target: Seq<char>) -> nat {
    if query.len() == 0 {
        1
    } else if target == query {
        100
    } else if starts(target, query) {
        80
    } else if seq_find(target, query, 0) is Some {
        60
    } else {
        let (qi, gaps) = gap_scan(query, target, 0, 0, 0, None, 0);
        if qi < query.len() {
            0
        } else if 40 - gaps * 5 >= 1 {
            (40 - gaps * 5) as nat
        } else {
            1
        }
    }
}

proof fn lemma_gap_scan_bounds(q: Seq<char>, t: Seq<char>, qi: int, j: int, off: int, last: Option<int>, gaps: int)
    requires
        0 <= qi <= q.len(),
        0 <= gaps <= qi,
        last is None ==> gaps == 0,
    ensures
        qi <= gap_scan(q, t, qi, j, off, last, gaps).0 <= q.len(),
        0 <= gap_scan(q, t, qi, j, off, last, gaps).1 <= gap_scan(q, t, qi, j, off, last, gaps).0,
    decreases t.len() - j,
{
    if 0 <= j < t.len() {
        let off2 = off + encode_utf8(seq![t[j]]).len();
        if qi < q.len() && q[qi] == t[j] {
            let g = match last {
                Some(l) => if off - l > 1 { gaps + 1 } else { gaps },
                None => gaps,
            };
            lemma_gap_scan_bounds(q, t, qi + 1, j + 1, off2, Some(off), g);
        } else {
            lemma_gap_scan_bounds(q, t, qi, j + 1, off2, last, gaps);
        }
    }
}

fn char_byte_len(c: char) -> (n: usize)
    ensures
        n == encode_utf8(seq![c]).len(),
{
    let mut s = String::new();
    s.push(c);
    assert(s@ =~= seq![c]);
    byte_length(s.as_str())
}

/// Score how well `query` matches `target` (higher is better).
pub fn fuzzy_score(query: &str, target: &str) -> (r: u32)
    requires
        query@.len() * 5 <= u32::MAX,
        encode_utf8(target@).len() + 4 <= usize::MAX,
    ensures
        r == fuzzy_score_spec(query@, target@),
{
    let q = chars_of(query);
    let t = chars_of(target);
    if q.len() == 0 {
        return 1;
    }
    if crate::strs::str_eq(target, query) {
        return 100;
    }
    if starts_with_chars(&t, &q) {
        return 80;
    }
    if crate::strs::contains_chars(&t, &q) {
        return 60;
    }
    let mut qi: usize = 0;
    let mut gaps: u32 = 0;
    let mut last: Option<usize> = None;
    let mut off: usize = 0;
    let mut j: usize = 0;
    let ghost total = encode_utf8(target@).len() as int;
    while j < t.len()
        invariant
            q@ == query@,
            t@ == target@,
            q@.len() * 5 <= u32::MAX,
            total == encode_utf8(target@).len(),
            total + 4 <= usize::MAX,
            j <= t@.len(),
            qi <= q@.len(),
            gaps <= qi,
            last is None ==> gaps == 0,
            off == encode_utf8(t@.take(j as int)).len(),
            last matches Some(l) ==> l <= off,
            gap_scan(q@, t@, 0, 0, 0, None, 0) == gap_scan(q@, t@, qi as int, j as int, off as int, opt_usize(last), gaps as int),
        decreases t@.len() - j,
    {
        let c = t[j];
        let w = char_byte_len(c);
        proof {
            assert(t@.take(j + 1) =~= t@.take(j as int) + seq![c]);
            crate::strs::lemma_encode_concat(t@.take(j as int), seq![c]);
            crate::strs::lemma_encode_concat(t@.take(j + 1), t@.skip(j + 1));
            assert(t@.take(j + 1) + t@.skip(j + 1) =~= t@);
        }
        if qi < q.len() && q[qi] == c {
            match last {
                Some(l) => {
                    if off - l > 1 {
                        gaps = gaps + 1;
                    }
                },
                None => {},
            }
            last = Some(off);
            qi = qi + 1;
        }
        off = off + w;
        j = j + 1;
    }
    proof {
        lemma_gap_scan_bounds(q@, t@, 0, 0, 0, None, 0);
    }
    if qi < q.len() {
        return 0;
    }
    let penalty = gaps * 5;
    if penalty < 40 {
        40 - penalty
    } else {
        1
    }
}

proof fn lemma_gap_scan_greedy(q: Seq<char>, t: Seq<char>, qi: int, j: int, off: int, last: Option<int>, gaps: int)
    requires
        0 <= qi <= q.len(),
        0 <= j <= t.len(),
    ensures
        gap_scan(q, t, qi, j, off, last, gaps).0 == greedy_from(q, t, qi, j),
    decreases t.len() - j,
{
    if j < t.len() {
        let off2 = off + encode_utf8(seq![t[j]]).len();
        if qi < q.len() && q[qi] == t[j] {
            let g = match last {
                Some(l) => if off - l > 1 { gaps + 1 } else { gaps },
                None => gaps,
            };
            lemma_gap_scan_greedy(q, t, qi + 1, j + 1, off2, Some(off), g);
        } else {
            lemma_gap_scan_greedy(q, t, qi, j + 1, off2, last, gaps);
        }
    }
}

/// The fuzzy score ranks the kinds of match: an empty query scores 1;
/// otherwise the target itself 100, a target it starts 80, one holding it
/// 60, one holding it only as a subsequence from 1 to 40, and any other 0.
pub proof fn law_fuzzy_score_ranks(q: Seq<char>, t: Seq<char>)
    ensures
        q.len() == 0 ==> fuzzy_score_spec(q, t) == 1,
        q.len() > 0 && t == q ==> fuzzy_score_spec(q, t) == 100,
        q.len() > 0 && t != q && starts(t, q) ==> fuzzy_score_spec(q, t) == 80,
        q.len() > 0 && t != q && !starts(t, q) && seq_find(t, q, 0) is Some ==> fuzzy_score_spec(q, t) == 60,
        q.len() > 0 && t != q && !starts(t, q) && seq_find(t, q, 0) is None && is_subsequence(q, t) ==> 1
            <= fuzzy_score_spec(q, t) <= 40,
        q.len() > 0 && t != q && !starts(t, q) && seq_find(t, q, 0) is None && !is_subsequence(q, t)
            ==> fuzzy_score_spec(q, t) == 0,
{
    lemma_gap_scan_greedy(q, t, 0, 0, 0, None, 0);
    lemma_gap_scan_bounds(q, t, 0, 0, 0, None, 0);
    lemma_greedy_subsequence(q, t, 0, 0);
    assert(q.skip(0) =~= q);
    assert(t.skip(0) =~= t);
}

pub open spec fn opt_usize(o: Option<usize>) -> Option<int> {
    match o {
        Some(x) => Some(x as int),
        None => None,
    }
}

pub(crate) fn starts_with_chars(t: &Vec<char>, q: &Vec<char>) -> (r: bool)
    ensures
        r == starts(t@, q@),
{
    if q.len() > t.len() {
        return false;
    }
    let mut i: usize = 0;
    while i < q.len()
        invariant
            q@.len() <= t@.len(),
            i <= q@.len(),
            forall|k: int| 0 <= k < i ==> t@[k] == q@[k],
        decreases q@.len() - i,
    {
        if t[i] != q[i] {
            assert(t@.take(q@.len() as int)[i as int] != q@[i as int]);
            return false;
        }
        i = i + 1;
    }
    assert(t@.take(q@.len() as int) =~= q@);
    true
}


/// The path prefix before a cursor at the end of `text`: a quoted
/// reference when one is open; otherwise the text after the last delimiter,
/// when extraction is forced or it looks like a path (holds `/`, or starts
/// with `.` or `~/`), or when it is empty right after a space.
pub open spec fn path_prefix_spec(text: Seq<char>, force_extract: bool) -> Option<Seq<u8>> {
    let b = encode_utf8(text);
    match quoted_prefix_start(b) {
        Some(k) => Some(b.skip(k)),
        None => {
            let pp = match last_delim_before(b, b.len() as int) {
                Some(i) => b.skip(i + 1),
                None => b,
            };
            if force_extract {
                Some(pp)
            } else if find_from(pp, seq![0x2fu8], 0) is Some || (pp.len() > 0 && pp[0] == 0x2e) || (
            pp.len() >= 2 && pp[0] == 0x7e && pp[1] == 0x2f) {
                Some(pp)
            } else if pp.len() == 0 && b.len() > 0 && b[b.len() - 1] == 0x20 {
                Some(pp)
            } else {
                None
            }
        },
    }
}

/// The `@` reference before a cursor at the end of `text`: a quoted one
/// (`@"...`), or the token after the last delimiter when it starts with `@`.
pub open spec fn at_prefix_spec(text: Seq<char>) -> Option<Seq<u8>> {
    let b = encode_utf8(text);
    match quoted_prefix_start(b) {
        Some(k) if b.skip(k).len() >= 2 && b[k] == 0x40 && b[k + 1] == 0x22 => Some(b.skip(k)),
        _ => {
            let start = match last_delim_before(b, b.len() as int) {
                Some(i) => i + 1,
                None => 0,
            };
            if start < b.len() && b[start] == 0x40 {
                Some(b.skip(start))
            } else {
                None
            }
        },
    }
}

pub open spec fn opt_bytes(o: Option<String>) -> Option<Seq<u8>> {
    match o {
        Some(s) => Some(encode_utf8(s@)),
        None => None,
    }
}

/// The text of `text` from byte offset `k`, which is a character boundary.
fn tail_from(text: &str, k: usize) -> (r: String)
    requires
        k <= encode_utf8(text@).len(),
        is_char_boundary(encode_utf8(text@), k as int),
    ensures
        encode_utf8(r@) == encode_utf8(text@).skip(k as int),
{
    let n = byte_length(text);
    proof {
        lemma_boundary_ends(text@);
    }
    let s = substring_bytes(text, k, n);
    assert(encode_utf8(text@).subrange(k as int, n as int) =~= encode_utf8(text@).skip(k as int));
    s
}

/// The text after the last delimiter of `text` (all of it without one), and
/// its start.
fn after_last_delimiter(text: &str) -> (r: (String, usize))
    ensures
        r.1 == match last_delim_before(encode_utf8(text@), encode_utf8(text@).len() as int) {
            Some(i) => i + 1,
            None => 0,
        },
        encode_utf8(r.0@) == encode_utf8(text@).skip(r.1 as int),
{
    let _n = byte_length(text);
    let start = match find_last_delimiter(text) {
        Some(i) => {
            proof {
                broadcast use encode_utf8_valid_utf8;

                lemma_last_delim_range(encode_utf8(text@), encode_utf8(text@).len() as int);
                let b = encode_utf8(text@);
                if i + 1 < b.len() {
                    is_char_boundary_iff_not_is_continuation_byte(b, i as int);
                }
            }
            i + 1
        },
        None => 0,
    };
    proof {
        broadcast use encode_utf8_valid_utf8;

        lemma_boundary_ends(text@);
        lemma_last_delim_range(encode_utf8(text@), encode_utf8(text@).len() as int);
        let b = encode_utf8(text@);
        if 0 < start < b.len() {
            lemma_after_ascii_boundary(b, start - 1);
        }
    }
    (tail_from(text, start), start)
}

/// The position after an ASCII byte is a character boundary.
proof fn lemma_after_ascii_boundary(b: Seq<u8>, i: int)
    requires
        valid_utf8(b),
        0 <= i,
        i + 1 < b.len(),
        b[i] < 0x80,
    ensures
        is_char_boundary(b, i + 1),
{
    lemma_ascii_boundary(b, i);
    lemma_char_boundary_after_ascii(b, i);
}

proof fn lemma_char_boundary_after_ascii(b: Seq<u8>, i: int)
    requires
        valid_utf8(b),
        0 <= i,
        i + 1 < b.len(),
        b[i] < 0x80,
        is_char_boundary(b, i),
    ensures
        is_char_boundary(b, i + 1),
    decreases b.len(),
{
    if i == 0 {
        reveal_with_fuel(is_char_boundary, 2);
        decode_utf8_first_scalar(b);
        assert(length_of_first_scalar(b) == 1);
        assert(is_char_boundary(pop_first_scalar(b), 0));
    } else {
        let k = length_of_first_scalar(b);
        decode_utf8_first_scalar(b);
        lemma_boundary_len(b, i);
        assert(pop_first_scalar(b)[i - k] == b[i]);
        assert(is_char_boundary(pop_first_scalar(b), i - k));
        lemma_char_boundary_after_ascii(pop_first_scalar(b), i - k);
        assert(is_char_boundary(b, i + 1));
    }
}

proof fn lemma_boundary_len(b: Seq<u8>, i: int)
    requires
        valid_utf8(b),
        is_char_boundary(b, i),
        i > 0,
    ensures
        i >= length_of_first_scalar(b),
        b.len() > 0,
        valid_utf8(pop_first_scalar(b)),
{
    reveal_with_fuel(is_char_boundary, 2);
    decode_utf8_first_scalar(b);
}

/// A path prefix before a cursor at the end of `text`.
pub fn extract_path_prefix(text: &str, force_extract: bool) -> (r: Option<String>)
    ensures
        opt_bytes(r) == path_prefix_spec(text@, force_extract),
{
    let ghost b = encode_utf8(text@);
    match quoted_start(text) {
        Some(k) => {
            return Some(tail_from(text, k));
        },
        None => {},
    }
    let (pp, _start) = after_last_delimiter(text);
    assert(encode_utf8(text@).skip(0) =~= encode_utf8(text@));
    if force_extract {
        return Some(pp);
    }
    let pb = pp.as_str().as_bytes();
    let slash = vec![0x2fu8];
    assert(slash@ =~= seq![0x2fu8]);
    if find_subsequence(pb, slash.as_slice()).is_some() || (pb.len() > 0 && pb[0] == 0x2e) || (pb.len() >= 2
        && pb[0] == 0x7e && pb[1] == 0x2f) {
        return Some(pp);
    }
    let tb = text.as_bytes();
    if pb.len() == 0 && tb.len() > 0 && tb[tb.len() - 1] == 0x20 {
        return Some(pp);
    }
    None
}

/// An `@` reference before a cursor at the end of `text`.
pub fn extract_at_prefix(text: &str) -> (r: Option<String>)
    ensures
        opt_bytes(r) == at_prefix_spec(text@),
{
    let tb = text.as_bytes();
    let tl = tb.len();
    match quoted_start(text) {
        Some(k) => {
            if k + 1 < tl && tb[k] == 0x40 && tb[k + 1] == 0x22 {
                return Some(tail_from(text, k));
            }
        },
        None => {},
    }
    let (rest, start) = after_last_delimiter(text);
    if start < tb.len() && tb[start] == 0x40 {
        return Some(rest);
    }
    None
}

/// Line `i` of `lines`, or the empty string when there is none.
pub open spec fn line_text(lines: Seq<String>, i: int) -> Seq<char> {
    if 0 <= i < lines.len() {
        lines[i]@
    } else {
        Seq::empty()
    }
}

fn line_str(lines: &[String], i: usize) -> (r: &str)
    ensures
        r@ == line_text(lines@, i as int),
{
    if i < lines.len() {
        lines[i].as_str()
    } else {
        proof {
            reveal_strlit("");
        }
        ""
    }
}

/// The bytes of the cursor line before the cursor (the cursor clamped to
/// the line).
pub open spec fn before_cursor(lines: Seq<String>, cl: int, cc: int) -> Seq<u8> {
    let b = encode_utf8(line_text(lines, cl));
    b.take(if cc < b.len() { cc } else { b.len() as int })
}

/// The cursor column falls on a character boundary of its line (or past it).
pub open spec fn cursor_ok(lines: Seq<String>, cl: int, cc: int) -> bool {
    let b = encode_utf8(line_text(lines, cl));
    cc >= b.len() || is_char_boundary(b, cc)
}

/// The prefix ending at cursor `col` starts on a character boundary of
/// `line`, and the cursor (clamped to the line) is one too.
pub open spec fn completion_fits(line: Seq<char>, col: int, plen: int) -> bool {
    let b = encode_utf8(line);
    let start = if col > plen { col - plen } else { 0 };
    &&& start <= b.len()
    &&& is_char_boundary(b, start)
    &&& (col >= b.len() || is_char_boundary(b, col))
}

/// The completed line (as bytes) and the cursor column after it.
pub open spec fn completed_line(line: Seq<char>, col: int, value: Seq<char>, prefix: Seq<char>) -> (Seq<u8>, int) {
    let b = encode_utf8(line);
    let plen = encode_utf8(prefix).len() as int;
    let start = if col > plen { col - plen } else { 0 };
    let before = b.take(start);
    let after = b.skip(if col < b.len() { col } else { b.len() as int });
    let v = encode_utf8(value);
    if prefix.len() > 0 && prefix[0] == '/' && trim(decode_utf8(before)).len() == 0 && !prefix.skip(
        1,
    ).contains('/') {
        (before + encode_utf8(seq!['/'] + value + seq![' ']) + after, (before.len() + v.len() + 2) as int)
    } else if prefix.len() > 0 && prefix[0] == '@' {
        (before + encode_utf8(value + seq![' ']) + after, (before.len() + v.len() + 1) as int)
    } else {
        (before + v + after, (before.len() + v.len()) as int)
    }
}

/// A suggestion as text: value, label, description and hint.
pub open spec fn item_text(i: AutocompleteItem) -> (Seq<char>, Seq<char>, Option<Seq<char>>, Option<Seq<char>>) {
    (i.value@, i.label@, opt_text(i.description), opt_text(i.hint))
}

pub open spec fn opt_text(o: Option<String>) -> Option<Seq<char>> {
    match o {
        Some(s) => Some(s@),
        None => None,
    }
}

pub open spec fn items_text(v: Seq<AutocompleteItem>) -> Seq<(Seq<char>, Seq<char>, Option<Seq<char>>, Option<Seq<char>>)> {
    v.map_values(|i: AutocompleteItem| item_text(i))
}

/// The name a command is completed to.
pub open spec fn entry_name(e: CommandEntry) -> Seq<char> {
    match e {
        CommandEntry::Slash(c) => c.name@,
        CommandEntry::Item(i) => i.value@,
    }
}

/// The label a command is shown with.
pub open spec fn entry_label(e: CommandEntry) -> Seq<char> {
    match e {
        CommandEntry::Slash(c) => c.name@,
        CommandEntry::Item(i) => i.label@,
    }
}

pub open spec fn entry_description(e: CommandEntry) -> Option<Seq<char>> {
    match e {
        CommandEntry::Slash(c) => opt_text(c.description),
        CommandEntry::Item(i) => opt_text(i.description),
    }
}

/// The description in lower case (the empty text's when there is none).
pub open spec fn lower_description(e: CommandEntry) -> Seq<char> {
    unicode_lower(
        match entry_description(e) {
            Some(d) => d,
            None => Seq::empty(),
        },
    )
}

/// The score arithmetic fits for query `q` against command `e`.
pub open spec fn score_fits(q: Seq<char>, e: CommandEntry) -> bool {
    &&& q.len() * 5 <= u32::MAX
    &&& encode_utf8(unicode_lower(entry_name(e))).len() + 4 <= usize::MAX
    &&& encode_utf8(lower_description(e)).len() + 4 <= usize::MAX
}

/// How well the lower-case query `q` matches command `e`: its name's fuzzy
/// score, or half its description's when that is higher; no score when
/// neither holds `q` as a subsequence.
pub open spec fn command_score(q: Seq<char>, e: CommandEntry) -> Option<nat> {
    let ln = unicode_lower(entry_name(e));
    let ld = lower_description(e);
    let nm = fuzzy_matches(q, ln);
    let dm = fuzzy_matches(q, ld);
    if !nm && !dm {
        None
    } else {
        let ns = if nm {
            fuzzy_score_spec(q, ln)
        } else {
            0
        };
        let ds = if dm {
            fuzzy_score_spec(q, ld) / 2
        } else {
            0
        };
        Some(
            if ns >= ds {
                ns
            } else {
                ds
            },
        )
    }
}

/// The suggestion for command `e`.
pub open spec fn command_item(e: CommandEntry) -> (Seq<char>, Seq<char>, Option<Seq<char>>, Option<Seq<char>>) {
    (entry_name(e), entry_label(e), entry_description(e), None)
}

/// The matching commands, in order, with their scores.
pub open spec fn scored_commands(q: Seq<char>, cmds: Seq<CommandEntry>) -> Seq<
    ((Seq<char>, Seq<char>, Option<Seq<char>>, Option<Seq<char>>), nat),
>
    decreases cmds.len(),
{
    if cmds.len() == 0 {
        Seq::empty()
    } else {
        let rest = scored_commands(q, cmds.drop_last());
        match command_score(q, cmds.last()) {
            Some(sc) => rest.push((command_item(cmds.last()), sc)),
            None => rest,
        }
    }
}

/// The first index at or after `i` whose score is below `k`.
pub open spec fn first_below<T>(s: Seq<(T, nat)>, k: nat, i: int) -> int
    decreases s.len() - i,
{
    if i < 0 || i >= s.len() {
        s.len() as int
    } else if s[i].1 < k {
        i
    } else {
        first_below(s, k, i + 1)
    }
}

/// `s` sorted by descending score, keeping the order of equal scores.
pub open spec fn sort_by_score<T>(s: Seq<(T, nat)>) -> Seq<(T, nat)>
    decreases s.len(),
{
    if s.len() == 0 {
        s
    } else {
        let r = sort_by_score(s.drop_last());
        r.insert(first_below(r, s.last().1, 0), s.last())
    }
}

/// Command-name suggestions for `text` (a `/` and the start of a name):
/// every command whose lower-case name or description holds the
/// lower-case query as a subsequence, best score first, with `text` as the
/// prefix; none when nothing matches (or a text is too long to score).
pub open spec fn name_suggestions(cmds: Seq<CommandEntry>, text: Seq<char>) -> Option<
    (Seq<(Seq<char>, Seq<char>, Option<Seq<char>>, Option<Seq<char>>)>, Seq<char>),
> {
    let q = unicode_lower(text.skip(1));
    if exists|i: int| 0 <= i < cmds.len() && !score_fits(q, #[trigger] cmds[i]) {
        None
    } else {
        let m = sort_by_score(scored_commands(q, cmds));
        if m.len() == 0 {
            None
        } else {
            Some((m.map_values(|p: ((Seq<char>, Seq<char>, Option<Seq<char>>, Option<Seq<char>>), nat)| p.0), text))
        }
    }
}

/// The first command named `name`.
pub open spec fn find_command(cmds: Seq<CommandEntry>, name: Seq<char>, i: int) -> Option<int>
    decreases cmds.len() - i,
{
    if i < 0 || i >= cmds.len() {
        None
    } else if entry_name(cmds[i]) == name {
        Some(i)
    } else {
        find_command(cmds, name, i + 1)
    }
}

/// The command name and argument text of a text that starts with `/` and
/// has a space: what lies between the `/` and the first space, and what
/// follows that space.
pub open spec fn command_argument_spec(t: Seq<char>) -> Option<(Seq<char>, Seq<char>)> {
    if t.len() > 0 && t[0] == '/' {
        match char_index_from(t, ' ', 0) {
            Some(k) => Some((t.subrange(1, k), t.skip(k + 1))),
            None => None,
        }
    } else {
        None
    }
}

/// The first command named `name` is a slash command (not a plain item).
pub open spec fn is_slash_command(cmds: Seq<CommandEntry>, name: Seq<char>) -> bool {
    match find_command(cmds, name, 0) {
        Some(i) => cmds[i] is Slash,
        None => false,
    }
}

pub open spec fn opt_pair(o: Option<(String, String)>) -> Option<(Seq<char>, Seq<char>)> {
    match o {
        Some(p) => Some((p.0@, p.1@)),
        None => None,
    }
}

/// The command name and argument text of `text` (see
/// `command_argument_spec`).
pub fn command_argument(text: &str) -> (r: Option<(String, String)>)
    ensures
        opt_pair(r) == command_argument_spec(text@),
{
    let tv = chars_of(text);
    if tv.len() == 0 || tv[0] != '/' {
        return None;
    }
    let mut k: usize = 0;
    while k < tv.len() && tv[k] != ' '
        invariant
            k <= tv@.len(),
            tv@ == text@,
            char_index_from(tv@, ' ', 0) == char_index_from(tv@, ' ', k as int),
        decreases tv@.len() - k,
    {
        k = k + 1;
    }
    if k >= tv.len() {
        return None;
    }
    assert(k != 0);
    let name = string_from_range(tv.as_slice(), 1, k);
    let arg = string_from_range(tv.as_slice(), k + 1, tv.len());
    assert(arg@ =~= text@.skip(k + 1));
    Some((name, arg))
}

/// Scored suggestions as text.
pub open spec fn scored_pairs(items: Seq<AutocompleteItem>, scores: Seq<u32>) -> Seq<
    ((Seq<char>, Seq<char>, Option<Seq<char>>, Option<Seq<char>>), nat),
> {
    Seq::new(items.len(), |j: int| (item_text(items[j]), scores[j] as nat))
}

fn clone_text(o: &Option<String>) -> (r: Option<String>)
    ensures
        opt_text(r) == opt_text(*o),
{
    match o {
        Some(s) => Some(s.clone()),
        None => None,
    }
}

/// What the application supplies to completion: the argument completions
/// and inline hints of its slash commands, and the files that match a path
/// (the file system is the application's to read).
pub trait CompletionSource {
    /// Completions for the argument text of slash command `command`.
    fn argument_completions(&self, command: &str, argument: &str) -> Option<Vec<AutocompleteItem>>;

    /// Ghost text for the argument text of slash command `command`.
    fn inline_hint(&self, command: &str, argument: &str) -> Option<String>;

    /// The entries of directory `dir` (relative to `base` unless absolute,
    /// a leading `~` standing for the home directory), symbolic links
    /// resolved; none when it cannot be read.
    fn list_dir(&mut self, base: &PathBuf, dir: &str) -> Vec<DirEntryInfo>;

    /// Files under `base` found by a fuzzy search for `query` (an `@`
    /// reference).
    fn fuzzy_file_suggestions(&mut self, base: &PathBuf, query: &str, is_quoted: bool) -> Vec<AutocompleteItem>;
}

/// A source with no argument completions, hints or files (for a provider
/// that only completes slash-command names).
pub struct NoCompletionSource;

impl CompletionSource for NoCompletionSource {
    fn argument_completions(&self, command: &str, argument: &str) -> Option<Vec<AutocompleteItem>> {
        None
    }

    fn inline_hint(&self, command: &str, argument: &str) -> Option<String> {
        None
    }

    fn list_dir(&mut self, base: &PathBuf, dir: &str) -> Vec<DirEntryInfo> {
        Vec::new()
    }

    fn fuzzy_file_suggestions(&mut self, base: &PathBuf, query: &str, is_quoted: bool) -> Vec<AutocompleteItem> {
        Vec::new()
    }
}

/// Combined provider of slash-command and file-path completions.
pub struct CombinedAutocompleteProvider<S> {
    commands: Vec<CommandEntry>,
    base_path: PathBuf,
    source: S,
}

impl CombinedAutocompleteProvider<NoCompletionSource> {
    pub fn new(commands: Vec<CommandEntry>, base_path: PathBuf) -> (p: CombinedAutocompleteProvider<
        NoCompletionSource,
    >)
        ensures
            p.commands_view() == commands@,
            p.base_path_view() == base_path,
    {
        CombinedAutocompleteProvider { commands, base_path, source: NoCompletionSource }
    }

    /// A path prefix before a cursor at the end of `text`.
    pub fn extract_path_prefix(text: &str, force_extract: bool) -> (r: Option<String>)
        ensures
            opt_bytes(r) == path_prefix_spec(text@, force_extract),
    {
        extract_path_prefix(text, force_extract)
    }

    /// Whether file completion applies at the cursor: not while a slash
    /// command's name is being typed (the trimmed text before the cursor
    /// starts with `/` and holds no space).
    pub fn should_trigger_file_completion(lines: &[String], cursor_line: usize, cursor_col: usize) -> (r: bool)
        requires
            cursor_ok(lines@, cursor_line as int, cursor_col as int),
        ensures
            ({
                let t = trim(decode_utf8(before_cursor(lines@, cursor_line as int, cursor_col as int)));
                r == (!(t.len() > 0 && t[0] == '/') || t.contains(' '))
            }),
    {
        let current = line_str(lines, cursor_line);
        let n = byte_length(current);
        let m = if cursor_col < n {
            cursor_col
        } else {
            n
        };
        proof {
            lemma_boundary_ends(current@);
        }
        let (before, _after) = crate::strs::split_at_byte(current, m);
        proof {
            broadcast use encode_utf8_decode_utf8;

        }
        let t = trim_string(before.as_str());
        let tv = chars_of(t.as_str());
        let starts_slash = tv.len() > 0 && tv[0] == '/';
        let mut has_space = false;
        let mut i: usize = 0;
        while i < tv.len()
            invariant
                i <= tv@.len(),
                has_space == (exists|j: int| 0 <= j < i && tv@[j] == ' '),
            decreases tv@.len() - i,
        {
            if tv[i] == ' ' {
                has_space = true;
            }
            i = i + 1;
        }
        assert(has_space == tv@.contains(' '));
        !starts_slash || has_space
    }
}

impl<S: CompletionSource> CombinedAutocompleteProvider<S> {
    /// The registered commands.
    pub closed spec fn commands_view(&self) -> Seq<CommandEntry> {
        self.commands@
    }

    /// The directory that relative paths are completed from.
    pub closed spec fn base_path_view(&self) -> PathBuf {
        self.base_path
    }

    /// A provider whose argument completions, hints and files come from
    /// `source`.
    pub fn with_source(commands: Vec<CommandEntry>, base_path: PathBuf, source: S) -> (p: Self)
        ensures
            p.commands_view() == commands@,
            p.base_path_view() == base_path,
    {
        CombinedAutocompleteProvider { commands, base_path, source }
    }

    /// The directory that relative paths are completed from.
    pub fn base_path(&self) -> (r: &PathBuf)
        ensures
            *r == self.base_path_view(),
    {
        &self.base_path
    }

    /// Insert the chosen `item` in place of `prefix`, which ends at the
    /// cursor: a slash command gets a `/` before it and a space after, an
    /// `@` reference a space after, anything else goes in as it is.
    pub fn complete_item(
        &self,
        lines: &[String],
        cursor_line: usize,
        cursor_col: usize,
        item: &AutocompleteItem,
        prefix: &str,
    ) -> (r: CompletionResult)
        requires
            cursor_line < lines@.len(),
            completion_fits(lines@[cursor_line as int]@, cursor_col as int, encode_utf8(prefix@).len() as int),
            encode_utf8(lines@[cursor_line as int]@).len() + encode_utf8(item.value@).len() + 2 <= usize::MAX,
        ensures
            r.cursor_line == cursor_line,
            r.lines@.len() == lines@.len(),
            forall|i: int| 0 <= i < lines@.len() && i != cursor_line ==> #[trigger] r.lines@[i] == lines@[i],
            ({
                let (line, col) = completed_line(
                    lines@[cursor_line as int]@,
                    cursor_col as int,
                    item.value@,
                    prefix@,
                );
                encode_utf8(r.lines@[cursor_line as int]@) == line && r.cursor_col == col
            }),
    {
        let current = lines[cursor_line].as_str();
        let n = byte_length(current);
        let plen = byte_length(prefix);
        let prefix_start = if cursor_col > plen {
            cursor_col - plen
        } else {
            0
        };
        let m = if cursor_col < n {
            cursor_col
        } else {
            n
        };
        proof {
            lemma_boundary_ends(current@);
        }
        let before = substring_bytes(current, 0, prefix_start);
        let after = substring_bytes(current, m, n);
        proof {
            broadcast use encode_utf8_decode_utf8;

            let b = encode_utf8(current@);
            assert(b.subrange(0, prefix_start as int) =~= b.take(prefix_start as int));
            assert(decode_utf8(b.take(prefix_start as int)) == before@);
        }
        let pv = chars_of(prefix);
        let starts_slash = pv.len() > 0 && pv[0] == '/';
        let trimmed = trim_string(before.as_str());
        let mut rest_has_slash = false;
        if starts_slash {
            let mut i: usize = 1;
            while i < pv.len()
                invariant
                    1 <= i <= pv@.len(),
                    rest_has_slash == (exists|j: int| 1 <= j < i && pv@[j] == '/'),
                decreases pv@.len() - i,
            {
                if pv[i] == '/' {
                    rest_has_slash = true;
                }
                i = i + 1;
            }
            assert(rest_has_slash == prefix@.skip(1).contains('/')) by {
                if rest_has_slash {
                    let j = choose|j: int| 1 <= j < pv@.len() && pv@[j] == '/';
                    assert(prefix@.skip(1)[j - 1] == '/');
                }
                if prefix@.skip(1).contains('/') {
                    let j = choose|j: int| 0 <= j < prefix@.skip(1).len() && prefix@.skip(1)[j] == '/';
                    assert(pv@[j + 1] == '/');
                }
            }
        }
        let vlen = byte_length(item.value.as_str());
        let blen = byte_length(before.as_str());
        let mut new_line = String::new();
        new_line.append(before.as_str());
        let col;
        let ghost kind: int;
        if starts_slash && trimmed.unicode_len() == 0 && !rest_has_slash {
            new_line.push('/');
            new_line.append(item.value.as_str());
            new_line.push(' ');
            col = blen + vlen + 2;
            proof {
                kind = 0;
            }
        } else if pv.len() > 0 && pv[0] == '@' {
            new_line.append(item.value.as_str());
            new_line.push(' ');
            col = blen + vlen + 1;
            proof {
                kind = 1;
            }
        } else {
            new_line.append(item.value.as_str());
            col = blen + vlen;
            proof {
                kind = 2;
            }
        }
        new_line.append(after.as_str());
        proof {
            let b = encode_utf8(current@);
            assert(b.subrange(0, prefix_start as int) =~= b.take(prefix_start as int));
            assert(b.subrange(m as int, n as int) =~= b.skip(m as int));
            let bb = before@;
            let v = item.value@;
            let a = after@;
            if kind == 0 {
                assert(new_line@ =~= bb + (seq!['/'] + v + seq![' ']) + a);
                crate::strs::lemma_encode_concat(bb, seq!['/'] + v + seq![' ']);
                crate::strs::lemma_encode_concat(bb + (seq!['/'] + v + seq![' ']), a);
            } else if kind == 1 {
                assert(new_line@ =~= bb + (v + seq![' ']) + a);
                crate::strs::lemma_encode_concat(bb, v + seq![' ']);
                crate::strs::lemma_encode_concat(bb + (v + seq![' ']), a);
            } else {
                assert(new_line@ =~= bb + v + a);
                crate::strs::lemma_encode_concat(bb, v);
                crate::strs::lemma_encode_concat(bb + v, a);
            }
        }
        let mut new_lines: Vec<String> = Vec::new();
        let mut i: usize = 0;
        while i < lines.len()
            invariant
                i <= lines@.len(),
                cursor_line < lines@.len(),
                new_lines@.len() == i,
                forall|j: int| 0 <= j < i && j != cursor_line ==> #[trigger] new_lines@[j] == lines@[j],
                i > cursor_line ==> new_lines@[cursor_line as int] == new_line,
            decreases lines@.len() - i,
        {
            if i == cursor_line {
                new_lines.push(new_line.clone());
            } else {
                new_lines.push(lines[i].clone());
            }
            i = i + 1;
        }
        assert(encode_utf8(new_lines@[cursor_line as int]@) == completed_line(
            lines@[cursor_line as int]@,
            cursor_col as int,
            item.value@,
            prefix@,
        ).0);
        CompletionResult { lines: new_lines, cursor_line, cursor_col: col }
    }


    /// The name of command `e`.
    fn entry_name_str(e: &CommandEntry) -> (r: &str)
        ensures
            r@ == entry_name(*e),
    {
        match e {
            CommandEntry::Slash(c) => c.name.as_str(),
            CommandEntry::Item(i) => i.value.as_str(),
        }
    }

    /// The lower-case query's score against command `e`, or `Err` when the
    /// score arithmetic would not fit.
    fn score_command(q: &str, e: &CommandEntry) -> (r: Result<Option<u32>, ()>)
        ensures
            r is Ok == score_fits(q@, *e),
            r matches Ok(o) ==> match o {
                Some(x) => command_score(q@, *e) == Some(x as nat),
                None => command_score(q@, *e) is None,
            },
    {
        let empty = String::new();
        let (name, desc) = match e {
            CommandEntry::Slash(c) => (c.name.as_str(), &c.description),
            CommandEntry::Item(i) => (i.value.as_str(), &i.description),
        };
        let d = match desc {
            Some(d) => d.as_str(),
            None => empty.as_str(),
        };
        assert(d@ == (match entry_description(*e) {
            Some(x) => x,
            None => Seq::<char>::empty(),
        }));
        let ln = to_lowercase(name);
        let ld = to_lowercase(d);
        let qn = chars_of(q).len();
        if qn > 858993459 || byte_length(ln.as_str()) > usize::MAX - 4 || byte_length(ld.as_str()) > usize::MAX - 4 {
            return Err(());
        }
        let nm = fuzzy_match_subsequence(q, ln.as_str());
        let dm = fuzzy_match_subsequence(q, ld.as_str());
        if !nm && !dm {
            return Ok(None);
        }
        let ns = if nm {
            fuzzy_score(q, ln.as_str())
        } else {
            0
        };
        let ds = if dm {
            fuzzy_score(q, ld.as_str()) / 2
        } else {
            0
        };
        Ok(
            Some(
                if ns >= ds {
                    ns
                } else {
                    ds
                },
            ),
        )
    }

    /// The suggestion for command `e`.
    fn command_suggestion(e: &CommandEntry) -> (r: AutocompleteItem)
        ensures
            item_text(r) == command_item(*e),
    {
        match e {
            CommandEntry::Slash(c) => {
                let mut it = AutocompleteItem::new(c.name.as_str(), c.name.as_str());
                it.description = clone_text(&c.description);
                it
            },
            CommandEntry::Item(i) => {
                let mut it = AutocompleteItem::new(i.value.as_str(), i.label.as_str());
                it.description = clone_text(&i.description);
                it
            },
        }
    }

    /// Command-name suggestions for `text` (see `name_suggestions`).
    fn name_suggestion_list(&self, text: &str) -> (r: Option<SuggestionResult>)
        requires
            text@.len() > 0,
        ensures
            match r {
                Some(sr) => name_suggestions(self.commands_view(), text@) == Some((items_text(sr.items@), sr.prefix@)),
                None => name_suggestions(self.commands_view(), text@) is None,
            },
    {
        let tv = chars_of(text);
        let rest = string_from_range(tv.as_slice(), 1, tv.len());
        assert(rest@ =~= text@.skip(1));
        let q = to_lowercase(rest.as_str());
        let ghost cmds = self.commands@;
        let mut items: Vec<AutocompleteItem> = Vec::new();
        let mut scores: Vec<u32> = Vec::new();
        let mut i: usize = 0;
        assert(cmds.take(0) =~= Seq::<CommandEntry>::empty());
        assert(scored_pairs(items@, scores@) =~= sort_by_score(scored_commands(q@, cmds.take(0))));
        while i < self.commands.len()
            invariant
                cmds == self.commands@,
                q@ == unicode_lower(text@.skip(1)),
                i <= cmds.len(),
                items@.len() == scores@.len(),
                scored_pairs(items@, scores@) == sort_by_score(scored_commands(q@, cmds.take(i as int))),
                forall|j: int| 0 <= j < i ==> score_fits(q@, #[trigger] cmds[j]),
            decreases cmds.len() - i,
        {
            let ghost z = scored_pairs(items@, scores@);
            let ghost rest = scored_commands(q@, cmds.take(i as int));
            assert(cmds.take(i + 1).drop_last() =~= cmds.take(i as int));
            assert(cmds.take(i + 1).last() == cmds[i as int]);
            match Self::score_command(q.as_str(), &self.commands[i]) {
                Err(()) => {
                    assert(!score_fits(q@, cmds[i as int]));
                    return None;
                },
                Ok(None) => {
                    assert(scored_commands(q@, cmds.take(i + 1)) == rest);
                },
                Ok(Some(sc)) => {
                    let item = Self::command_suggestion(&self.commands[i]);
                    let mut pos: usize = 0;
                    while pos < scores.len() && scores[pos] >= sc
                        invariant
                            pos <= scores@.len(),
                            items@.len() == scores@.len(),
                            z == scored_pairs(items@, scores@),
                            first_below(z, sc as nat, 0) == first_below(z, sc as nat, pos as int),
                        decreases scores@.len() - pos,
                    {
                        pos = pos + 1;
                    }
                    let ghost entry = (item_text(item), sc as nat);
                    assert(first_below(z, sc as nat, pos as int) == pos);
                    items.insert(pos, item);
                    scores.insert(pos, sc);
                    assert(scored_pairs(items@, scores@) =~= z.insert(pos as int, entry));
                    assert(scored_commands(q@, cmds.take(i + 1)) == rest.push(entry));
                    assert(rest.push(entry).drop_last() =~= rest);
                    assert(sort_by_score(rest.push(entry)) == z.insert(first_below(z, sc as nat, 0), entry));
                },
            }
            i = i + 1;
        }
        assert(cmds.take(cmds.len() as int) =~= cmds);
        if items.len() == 0 {
            return None;
        }
        let ghost m = sort_by_score(scored_commands(q@, cmds));
        assert(m.map_values(|p: ((Seq<char>, Seq<char>, Option<Seq<char>>, Option<Seq<char>>), nat)| p.0) =~= items_text(items@));
        Some(SuggestionResult { items, prefix: String::from_str(text) })
    }

    /// Whether the first command named `name` is a slash command.
    fn find_slash_command(&self, name: &str) -> (r: bool)
        ensures
            r == is_slash_command(self.commands_view(), name@),
    {
        let ghost cmds = self.commands@;
        let mut i: usize = 0;
        while i < self.commands.len() && !crate::strs::str_eq(Self::entry_name_str(&self.commands[i]), name)
            invariant
                cmds == self.commands@,
                i <= cmds.len(),
                find_command(cmds, name@, 0) == find_command(cmds, name@, i as int),
            decreases cmds.len() - i,
        {
            i = i + 1;
        }
        if i >= self.commands.len() {
            return false;
        }
        match &self.commands[i] {
            CommandEntry::Slash(_) => true,
            CommandEntry::Item(_) => false,
        }
    }

    /// The argument completions the source gives for slash command
    /// `command` (none for a plain item, an unknown name or an empty list),
    /// with the argument text as prefix.
    pub fn argument_suggestions(&self, command: &str, argument: &str) -> (r: Option<SuggestionResult>)
        ensures
            !is_slash_command(self.commands_view(), command@) ==> r is None,
            r matches Some(sr) ==> sr.items@.len() > 0 && sr.prefix@ == argument@,
    {
        if !self.find_slash_command(command) {
            return None;
        }
        match self.source.argument_completions(command, argument) {
            Some(v) => {
                if v.len() > 0 {
                    Some(SuggestionResult { items: v, prefix: String::from_str(argument) })
                } else {
                    None
                }
            },
            None => None,
        }
    }

    /// Suggestions for `text_before_cursor`, which starts with `/`. Before
    /// a space: the commands whose name or description matches the typed
    /// name fuzzily, best first, with the text as prefix. After it: the
    /// argument completions for the command so named (`argument_suggestions`
    /// with `command_argument`'s pair).
    pub fn slash_command_suggestions(&self, text_before_cursor: &str) -> (r: Option<SuggestionResult>)
        requires
            text_before_cursor@.len() > 0,
            text_before_cursor@[0] == '/',
        ensures
            command_argument_spec(text_before_cursor@) is None ==> match r {
                Some(sr) => name_suggestions(self.commands_view(), text_before_cursor@) == Some(
                    (items_text(sr.items@), sr.prefix@),
                ),
                None => name_suggestions(self.commands_view(), text_before_cursor@) is None,
            },
            command_argument_spec(text_before_cursor@) matches Some(ca) ==> (!is_slash_command(
                self.commands_view(),
                ca.0,
            ) ==> r is None) && (r matches Some(sr) ==> sr.items@.len() > 0 && sr.prefix@ == ca.1),
    {
        match command_argument(text_before_cursor) {
            Some((command, argument)) => self.argument_suggestions(command.as_str(), argument.as_str()),
            None => self.name_suggestion_list(text_before_cursor),
        }
    }

    /// Ghost text after the cursor: what the source gives for the command
    /// and argument of `command_argument`, when that names a slash command;
    /// none otherwise.
    pub fn inline_hint_for(&self, text_before_cursor: &str) -> (r: Option<String>)
        ensures
            r is Some ==> command_argument_spec(text_before_cursor@) is Some && is_slash_command(
                self.commands_view(),
                command_argument_spec(text_before_cursor@).unwrap().0,
            ),
    {
        match command_argument(text_before_cursor) {
            Some((command, argument)) => {
                if self.find_slash_command(command.as_str()) {
                    self.source.inline_hint(command.as_str(), argument.as_str())
                } else {
                    None
                }
            },
            None => None,
        }
    }

    /// Completions for the typed path `prefix` from the entries of the
    /// directory `file_search_plan` names, as the source lists it.
    fn file_suggestions(&mut self, prefix: &str) -> (r: Vec<AutocompleteItem>)
        ensures
            final(self).commands_view() == old(self).commands_view(),
            exists|es: Seq<(Seq<char>, bool)>| #[trigger] file_items_spec(prefix@, es) == items_text(r@),
    {
        let (dir, _name) = file_search_plan(prefix);
        let entries = self.source.list_dir(&self.base_path, dir.as_str());
        let r = file_suggestions_from_entries(prefix, &entries);
        assert(file_items_spec(prefix@, entry_views(entries@)) == items_text(r@));
        r
    }
}

/// A list entry as text: value, label, description and hint.
pub open spec fn select_item_text(i: SelectItem) -> (Seq<char>, Seq<char>, Option<Seq<char>>, Option<Seq<char>>) {
    (i.value@, i.label@, opt_text(i.description), opt_text(i.hint))
}

pub open spec fn select_items_text(v: Seq<SelectItem>) -> Seq<(Seq<char>, Seq<char>, Option<Seq<char>>, Option<Seq<char>>)> {
    v.map_values(|i: SelectItem| select_item_text(i))
}

/// Suggestions as list entries, text unchanged.
fn to_select_items(v: &Vec<AutocompleteItem>) -> (r: Vec<SelectItem>)
    ensures
        select_items_text(r@) == items_text(v@),
        r@.len() == v@.len(),
{
    let mut r: Vec<SelectItem> = Vec::new();
    let mut i: usize = 0;
    while i < v.len()
        invariant
            i <= v@.len(),
            r@.len() == i,
            forall|j: int| 0 <= j < i ==> #[trigger] select_item_text(r@[j]) == item_text(v@[j]),
        decreases v@.len() - i,
    {
        let it = &v[i];
        r.push(
            SelectItem {
                value: it.value.clone(),
                label: it.label.clone(),
                description: clone_text(&it.description),
                hint: clone_text(&it.hint),
            },
        );
        i = i + 1;
    }
    assert(select_items_text(r@) =~= items_text(v@));
    r
}

fn to_suggestions(s: Option<SuggestionResult>) -> (r: Option<AutocompleteSuggestions>)
    ensures
        match s {
            Some(x) => r matches Some(y) && select_items_text(y.items@) == items_text(x.items@) && y.prefix@
                == x.prefix@ && y.items@.len() == x.items@.len(),
            None => r is None,
        },
{
    match s {
        Some(x) => Some(AutocompleteSuggestions { items: to_select_items(&x.items), prefix: x.prefix }),
        None => None,
    }
}

/// The text before the cursor, when the cursor is on a character boundary
/// of its line (or past its end).
fn text_before(lines: &[String], cursor_line: usize, cursor_col: usize) -> (r: Option<String>)
    ensures
        match r {
            Some(t) => cursor_ok(lines@, cursor_line as int, cursor_col as int) && t@ == decode_utf8(
                before_cursor(lines@, cursor_line as int, cursor_col as int),
            ),
            None => !cursor_ok(lines@, cursor_line as int, cursor_col as int),
        },
{
    let current = line_str(lines, cursor_line);
    let n = byte_length(current);
    if cursor_col < n && !current.is_char_boundary(cursor_col) {
        return None;
    }
    let m = if cursor_col < n {
        cursor_col
    } else {
        n
    };
    proof {
        lemma_boundary_ends(current@);
    }
    let (before, _after) = crate::strs::split_at_byte(current, m);
    proof {
        broadcast use encode_utf8_decode_utf8;

    }
    Some(before)
}

/// What a text before the cursor asks to complete.
pub enum SuggestionRequest {
    /// Nothing to complete.
    Nothing,
    /// An `@` reference with no path yet: the files of the base directory.
    AtFiles { at: String },
    /// An `@` reference with a path: a fuzzy file search for `query`.
    AtFuzzy { at: String, query: String, is_quoted: bool },
    /// A slash command's name.
    SlashNames,
    /// A slash command's argument.
    SlashArgument { command: String, argument: String },
    /// A path.
    Paths { prefix: String },
}

/// The request for text `t`: an `@` reference first, then a text starting
/// with `/` (a command name, or its argument after a space), then a path.
pub open spec fn request_matches(r: SuggestionRequest, t: Seq<char>) -> bool {
    match at_prefix_spec(t) {
        Some(b) => {
            let at = decode_utf8(b);
            if parsed_raw(at).len() == 0 {
                r matches SuggestionRequest::AtFiles { at: a } && a@ == at
            } else {
                r matches SuggestionRequest::AtFuzzy { at: a, query, is_quoted } && a@ == at && query@ == parsed_raw(at)
                    && is_quoted == parsed_quoted(at)
            }
        },
        None => if t.len() > 0 && t[0] == '/' {
            match command_argument_spec(t) {
                Some(ca) => r matches SuggestionRequest::SlashArgument { command, argument } && command@ == ca.0
                    && argument@ == ca.1,
                None => r is SlashNames,
            }
        } else {
            match path_prefix_spec(t, false) {
                Some(b) => r matches SuggestionRequest::Paths { prefix } && encode_utf8(prefix@) == b,
                None => r is Nothing,
            }
        },
    }
}

/// What `text` (the text before the cursor) asks to complete.
pub fn suggestion_request(text: &str) -> (r: SuggestionRequest)
    ensures
        request_matches(r, text@),
{
    proof {
        broadcast use encode_utf8_decode_utf8;

    }
    match extract_at_prefix(text) {
        Some(at) => {
            let parsed = parse_path_prefix(at.as_str());
            assert(parsed.raw@ == parsed_raw(at@));
            assert(parsed.is_quoted == parsed_quoted(at@));
            if chars_of(parsed.raw.as_str()).len() == 0 {
                SuggestionRequest::AtFiles { at }
            } else {
                SuggestionRequest::AtFuzzy { at, query: parsed.raw, is_quoted: parsed.is_quoted }
            }
        },
        None => {
            let tv = chars_of(text);
            if tv.len() > 0 && tv[0] == '/' {
                match command_argument(text) {
                    Some((command, argument)) => SuggestionRequest::SlashArgument { command, argument },
                    None => SuggestionRequest::SlashNames,
                }
            } else {
                match extract_path_prefix(text, false) {
                    Some(prefix) => SuggestionRequest::Paths { prefix },
                    None => SuggestionRequest::Nothing,
                }
            }
        },
    }
}

proof fn lemma_listing(p: Seq<char>, found: Seq<AutocompleteItem>, items: Seq<SelectItem>)
    requires
        exists|es: Seq<(Seq<char>, bool)>| #[trigger] file_items_spec(p, es) == items_text(found),
        select_items_text(items) == items_text(found),
        items.len() > 0,
    ensures
        file_listing(p, items),
{
    let es = choose|es: Seq<(Seq<char>, bool)>| #[trigger] file_items_spec(p, es) == items_text(found);
    assert(file_items_spec(p, es) == select_items_text(items));
}

/// Text `t` names a slash command and an argument for it.
pub open spec fn hint_target(cmds: Seq<CommandEntry>, t: Seq<char>) -> bool {
    command_argument_spec(t) is Some && is_slash_command(cmds, command_argument_spec(t).unwrap().0)
}

/// Non-empty completions from a listing of the directory of path `p`.
pub open spec fn file_listing(p: Seq<char>, items: Seq<SelectItem>) -> bool {
    &&& items.len() > 0
    &&& exists|es: Seq<(Seq<char>, bool)>| #[trigger] file_items_spec(p, es) == select_items_text(items)
}

/// What `get_suggestions` gives for text `t`: slash-command names exactly;
/// for an argument, nothing unless it names a slash command, and the
/// argument as prefix; for a path, completions from a listing of its
/// directory with the path as prefix; for an `@` reference, the reference
/// as prefix (a listing of the base directory when it has no path yet).
pub open spec fn suggestions_for(cmds: Seq<CommandEntry>, t: Seq<char>, r: Option<AutocompleteSuggestions>) -> bool {
    match at_prefix_spec(t) {
        Some(b) => r matches Some(s) ==> s.prefix@ == decode_utf8(b) && s.items@.len() > 0 && (parsed_raw(
            decode_utf8(b),
        ).len() == 0 ==> file_listing(seq!['@'], s.items@)),
        None => if t.len() > 0 && t[0] == '/' {
            match command_argument_spec(t) {
                Some(ca) => (!is_slash_command(cmds, ca.0) ==> r is None) && (r matches Some(s) ==> s.prefix@ == ca.1
                    && s.items@.len() > 0),
                None => match r {
                    Some(s) => name_suggestions(cmds, t) == Some((select_items_text(s.items@), s.prefix@)),
                    None => name_suggestions(cmds, t) is None,
                },
            }
        } else {
            match path_prefix_spec(t, false) {
                Some(b) => r matches Some(s) ==> encode_utf8(s.prefix@) == b && file_listing(s.prefix@, s.items@),
                None => r is None,
            }
        },
    }
}

/// Tab may complete file paths: not while a slash command's name is typed.
pub open spec fn file_trigger(t: Seq<char>) -> bool {
    let tt = trim(t);
    !(tt.len() > 0 && tt[0] == '/') || tt.contains(' ')
}

/// The path Tab completes: the token before the cursor (forced), when the
/// cursor is on a boundary and file completion applies there.
pub open spec fn force_query_spec(lines: Seq<String>, cl: int, cc: int) -> Option<Seq<u8>> {
    let t = decode_utf8(before_cursor(lines, cl, cc));
    if cursor_ok(lines, cl, cc) && file_trigger(t) {
        path_prefix_spec(t, true)
    } else {
        None
    }
}

/// The path Tab completes at the cursor (see `force_query_spec`).
pub fn force_file_query(lines: &[String], cursor_line: usize, cursor_col: usize) -> (r: Option<String>)
    ensures
        opt_bytes(r) == force_query_spec(lines@, cursor_line as int, cursor_col as int),
{
    if !cursor_ok_exec(lines, cursor_line, cursor_col) {
        return None;
    }
    if !CombinedAutocompleteProvider::should_trigger_file_completion(lines, cursor_line, cursor_col) {
        return None;
    }
    let text = match text_before(lines, cursor_line, cursor_col) {
        Some(t) => t,
        None => return None,
    };
    extract_path_prefix(text.as_str(), true)
}

/// The inserted line and cursor of a completion fall on a boundary.
proof fn lemma_completed_boundary(line: Seq<char>, col: int, value: Seq<char>, prefix: Seq<char>)
    requires
        completion_fits(line, col, encode_utf8(prefix).len() as int),
    ensures
        ({
            let (l, c) = completed_line(line, col, value, prefix);
            0 <= c <= l.len() && is_char_boundary(l, c)
        }),
{
    broadcast use encode_utf8_valid_utf8, decode_utf8_encode_utf8;

    let b = encode_utf8(line);
    let plen = encode_utf8(prefix).len() as int;
    let start = if col > plen { col - plen } else { 0 };
    let m = if col < b.len() { col } else { b.len() as int };
    lemma_boundary_ends(line);
    crate::strs::lemma_boundary_take(b, start, start);
    crate::strs::lemma_boundary_skip(b, m, m);
    let a = decode_utf8(b.take(start));
    let z = decode_utf8(b.skip(m));
    let x = if prefix.len() > 0 && prefix[0] == '/' && trim(decode_utf8(b.take(start))).len() == 0 && !prefix.skip(
        1,
    ).contains('/') {
        seq!['/'] + value + seq![' ']
    } else if prefix.len() > 0 && prefix[0] == '@' {
        value + seq![' ']
    } else {
        value
    };
    crate::strs::lemma_encode_concat(seq!['/'], value);
    crate::strs::lemma_encode_concat(seq!['/'] + value, seq![' ']);
    crate::strs::lemma_encode_concat(value, seq![' ']);
    assert(is_ascii_chars(seq!['/']));
    assert(is_ascii_chars(seq![' ']));
    is_ascii_chars_encode_utf8(seq!['/']);
    is_ascii_chars_encode_utf8(seq![' ']);
    crate::strs::lemma_encode_concat(a, x);
    crate::strs::lemma_encode_concat(a + x, z);
    crate::strs::lemma_boundary_concat(a + x, z);
    assert(completed_line(line, col, value, prefix).0 == encode_utf8((a + x) + z));
    crate::strs::lemma_encode_concat(a + x, z);
}

impl<S: CompletionSource> AutocompleteProvider for CombinedAutocompleteProvider<S> {
    /// What `suggestion_request` asks for: slash-command names or
    /// arguments, `@` references (a fuzzy search, else a listing), paths (a
    /// listing of their directory); nothing with the cursor inside a
    /// character.
    fn get_suggestions(&mut self, lines: &[String], cursor_line: usize, cursor_col: usize) -> (r: Option<
        AutocompleteSuggestions,
    >)
        ensures
            !cursor_ok(lines@, cursor_line as int, cursor_col as int) ==> r is None,
            cursor_ok(lines@, cursor_line as int, cursor_col as int) ==> suggestions_for(
                old(self).commands_view(),
                decode_utf8(before_cursor(lines@, cursor_line as int, cursor_col as int)),
                r,
            ),
    {
        let text = match text_before(lines, cursor_line, cursor_col) {
            Some(t) => t,
            None => return None,
        };
        match suggestion_request(text.as_str()) {
            SuggestionRequest::Nothing => None,
            SuggestionRequest::SlashNames => to_suggestions(self.name_suggestion_list(text.as_str())),
            SuggestionRequest::SlashArgument { command, argument } => to_suggestions(
                self.argument_suggestions(command.as_str(), argument.as_str()),
            ),
            SuggestionRequest::AtFiles { at } => {
                let mut root = String::new();
                root.push('@');
                assert(root@ =~= seq!['@']);
                let found = self.file_suggestions(root.as_str());
                if found.len() == 0 {
                    return None;
                }
                let items = to_select_items(&found);
                proof {
                    lemma_listing(seq!['@'], found@, items@);
                }
                Some(AutocompleteSuggestions { items, prefix: at })
            },
            SuggestionRequest::AtFuzzy { at, query, is_quoted } => {
                let fuzzy = self.source.fuzzy_file_suggestions(&self.base_path, query.as_str(), is_quoted);
                if fuzzy.len() > 0 {
                    return Some(AutocompleteSuggestions { items: to_select_items(&fuzzy), prefix: at });
                }
                let found = self.file_suggestions(at.as_str());
                if found.len() == 0 {
                    return None;
                }
                Some(AutocompleteSuggestions { items: to_select_items(&found), prefix: at })
            },
            SuggestionRequest::Paths { prefix } => {
                let found = self.file_suggestions(prefix.as_str());
                if found.len() == 0 {
                    return None;
                }
                let items = to_select_items(&found);
                proof {
                    lemma_listing(prefix@, found@, items@);
                }
                Some(AutocompleteSuggestions { items, prefix })
            },
        }
    }

    /// The completion `complete_item` makes. Where that
    /// cannot be made (the cursor off its line, or the prefix or cursor
    /// inside a character), the text is kept and the cursor goes to the
    /// start.
    fn apply_completion(
        &self,
        lines: &[String],
        cursor_line: usize,
        cursor_col: usize,
        item: &SelectItem,
        prefix: &str,
    ) -> (r: CompletionResult)
        ensures
            ({
                let guard = cursor_line < lines@.len() && completion_fits(
                    lines@[cursor_line as int]@,
                    cursor_col as int,
                    encode_utf8(prefix@).len() as int,
                ) && encode_utf8(lines@[cursor_line as int]@).len() + encode_utf8(item.value@).len() + 2
                    <= usize::MAX;
                guard ==> ({
                    let (line, col) = completed_line(
                        lines@[cursor_line as int]@,
                        cursor_col as int,
                        item.value@,
                        prefix@,
                    );
                    &&& r.cursor_line == cursor_line
                    &&& r.lines@.len() == lines@.len()
                    &&& forall|i: int| 0 <= i < lines@.len() && i != cursor_line ==> #[trigger] r.lines@[i] == lines@[i]
                    &&& encode_utf8(r.lines@[cursor_line as int]@) == line
                    &&& r.cursor_col == col
                })
            }),
    {
        if cursor_line < lines.len() {
            let line = lines[cursor_line].as_str();
            let n = byte_length(line);
            let plen = byte_length(prefix);
            let start = if cursor_col > plen {
                cursor_col - plen
            } else {
                0
            };
            let vlen = byte_length(item.value.as_str());
            if start <= n && line.is_char_boundary(start) && (cursor_col >= n || line.is_char_boundary(cursor_col))
                && n <= usize::MAX - 2 && vlen <= usize::MAX - 2 - n {
                let chosen = AutocompleteItem::new(item.value.as_str(), item.label.as_str());
                let r = self.complete_item(lines, cursor_line, cursor_col, &chosen, prefix);
                proof {
                    lemma_completed_boundary(lines@[cursor_line as int]@, cursor_col as int, item.value@, prefix@);
                }
                return r;
            }
        }
        let mut kept: Vec<String> = Vec::new();
        let mut i: usize = 0;
        while i < lines.len()
            invariant
                i <= lines@.len(),
                kept@.len() == i,
            decreases lines@.len() - i,
        {
            kept.push(lines[i].clone());
            i = i + 1;
        }
        if kept.len() == 0 {
            kept.push(String::new());
        }
        proof {
            broadcast use vstd::utf8::is_char_boundary_start_end_of_seq, encode_utf8_valid_utf8;

            assert(col_at_boundary(kept@[0], 0));
        }
        CompletionResult { lines: kept, cursor_line: 0, cursor_col: 0 }
    }

    /// The hint the source gives for `command_argument`'s pair of the text
    /// before the cursor, when it names a slash command.
    fn get_inline_hint(&self, lines: &[String], cursor_line: usize, cursor_col: usize) -> (r: Option<String>)
        ensures
            !cursor_ok(lines@, cursor_line as int, cursor_col as int) ==> r is None,
            r is Some ==> hint_target(self.commands_view(), decode_utf8(before_cursor(lines@, cursor_line as int, cursor_col as int))),
    {
        match text_before(lines, cursor_line, cursor_col) {
            Some(t) => self.inline_hint_for(t.as_str()),
            None => None,
        }
    }

    /// File completion applies, with the cursor on a boundary, except while
    /// a slash command's name is typed.
    fn should_trigger_file_completion(&self, lines: &[String], cursor_line: usize, cursor_col: usize) -> (r: bool)
        ensures
            r == (cursor_ok(lines@, cursor_line as int, cursor_col as int) && file_trigger(
                decode_utf8(before_cursor(lines@, cursor_line as int, cursor_col as int)),
            )),
    {
        if !cursor_ok_exec(lines, cursor_line, cursor_col) {
            return false;
        }
        CombinedAutocompleteProvider::should_trigger_file_completion(lines, cursor_line, cursor_col)
    }

    /// Completions for the path `force_file_query` gives (Tab), from a
    /// listing of its directory.
    fn get_force_file_suggestions(&mut self, lines: &[String], cursor_line: usize, cursor_col: usize) -> (r:
        Option<AutocompleteSuggestions>)
        ensures
            force_query_spec(lines@, cursor_line as int, cursor_col as int) is None ==> r is None,
            r matches Some(s) ==> force_query_spec(lines@, cursor_line as int, cursor_col as int) == Some(
                encode_utf8(s.prefix@),
            ) && file_listing(s.prefix@, s.items@),
    {
        let query = match force_file_query(lines, cursor_line, cursor_col) {
            Some(q) => q,
            None => return None,
        };
        let found = self.file_suggestions(query.as_str());
        if found.len() == 0 {
            return None;
        }
        let items = to_select_items(&found);
        proof {
            lemma_listing(query@, found@, items@);
        }
        Some(AutocompleteSuggestions { items, prefix: query })
    }
}

fn cursor_ok_exec(lines: &[String], cursor_line: usize, cursor_col: usize) -> (r: bool)
    ensures
        r == cursor_ok(lines@, cursor_line as int, cursor_col as int),
{
    let current = line_str(lines, cursor_line);
    cursor_col >= byte_length(current) || current.is_char_boundary(cursor_col)
}

} // verus!
