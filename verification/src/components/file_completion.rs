//! File-path completion: where a typed path is looked up, which directory
//! entries complete it, what each completion inserts, and their order
//! (directories first, then by name). Reading the directory is the
//! application's; it hands the entries over as plain values.

use vstd::prelude::*;

use crate::components::autocomplete::{
    build_completion_value, completion_value, item_text, items_text, parse_path_prefix,
    starts, starts_with_chars, AutocompleteItem,
};
use crate::components::select_list::{to_lowercase, unicode_lower};
use crate::strs::{chars_of, concat, string_from_range};

verus! {

/// A directory entry: its name, and whether it is a directory (a symbolic
/// link already resolved to what it points to).
#[derive(Debug, Clone)]
pub struct DirEntryInfo {
    pub name: String,
    pub is_dir: bool,
}

/// The entries as (name, is directory).
pub open spec fn entry_views(es: Seq<DirEntryInfo>) -> Seq<(Seq<char>, bool)> {
    es.map_values(|e: DirEntryInfo| (e.name@, e.is_dir))
}

pub open spec fn opt_chars(o: Option<String>) -> Option<Seq<char>> {
    match o {
        Some(s) => Some(s@),
        None => None,
    }
}

/// The path without its last component, as `Path::parent` gives it.
pub uninterp spec fn path_parent(p: Seq<char>) -> Option<Seq<char>>;

/// The last component of a path, as `Path::file_name` gives it.
pub uninterp spec fn path_file_name(p: Seq<char>) -> Option<Seq<char>>;

/// Calls `Path::parent` on `p`: the path without its last component
/// (`path_parent`), none for a root or an empty path.
#[verifier::external_body]
fn parent_text(p: &str) -> (r: Option<String>)
    ensures
        opt_chars(r) == path_parent(p@),
{
    match std::path::Path::new(p).parent() {
        Some(d) => Some(d.to_string_lossy().into_owned()),
        None => None,
    }
}

/// Calls `Path::file_name` on `p`: its last component (`path_file_name`),
/// none when the path ends in `..` or is a root.
#[verifier::external_body]
fn file_name_text(p: &str) -> (r: Option<String>)
    ensures
        opt_chars(r) == path_file_name(p@),
{
    match std::path::Path::new(p).file_name() {
        Some(f) => Some(f.to_string_lossy().into_owned()),
        None => None,
    }
}

/// The path text of a prefix, without a leading `@"`, `"` or `@`.
pub open spec fn parsed_raw(p: Seq<char>) -> Seq<char> {
    if starts(p, seq!['@', '"']) {
        p.skip(2)
    } else if starts(p, seq!['"']) || starts(p, seq!['@']) {
        p.skip(1)
    } else {
        p
    }
}

/// Whether a prefix is an `@` reference.
pub open spec fn parsed_at(p: Seq<char>) -> bool {
    starts(p, seq!['@', '"']) || (!starts(p, seq!['"']) && starts(p, seq!['@']))
}

/// Whether a prefix opens a quote.
pub open spec fn parsed_quoted(p: Seq<char>) -> bool {
    starts(p, seq!['@', '"']) || starts(p, seq!['"'])
}

/// A path naming a directory to list whole: empty, `~`, or ending in `/`.
pub open spec fn names_directory(raw: Seq<char>) -> bool {
    raw.len() == 0 || raw == seq!['~'] || raw.last() == '/'
}

/// The directory to list for a prefix: the path itself when it names a
/// directory, else its parent (`.` when it has none). Relative to the base
/// directory unless absolute; a leading `~` stands for the home directory.
pub open spec fn search_dir_spec(p: Seq<char>) -> Seq<char> {
    let raw = parsed_raw(p);
    if names_directory(raw) {
        raw
    } else {
        match path_parent(raw) {
            Some(d) => d,
            None => seq!['.'],
        }
    }
}

/// The start of the names to complete: nothing when the path names a
/// directory, else its last component.
pub open spec fn search_name_spec(p: Seq<char>) -> Seq<char> {
    let raw = parsed_raw(p);
    if names_directory(raw) {
        Seq::empty()
    } else {
        match path_file_name(raw) {
            Some(f) => f,
            None => Seq::empty(),
        }
    }
}

/// The directory to list and the start of the names to complete, for a
/// path `prefix`.
pub fn file_search_plan(prefix: &str) -> (r: (String, String))
    ensures
        r.0@ == search_dir_spec(prefix@),
        r.1@ == search_name_spec(prefix@),
{
    let parsed = parse_path_prefix(prefix);
    let raw = parsed.raw.as_str();
    assert(raw@ == parsed_raw(prefix@));
    let v = chars_of(raw);
    let n = v.len();
    if n == 1 && v[0] == '~' {
        assert(v@ =~= seq!['~']);
    }
    if n == 0 || (n == 1 && v[0] == '~') || v[n - 1] == '/' {
        return (String::from_str(raw), String::new());
    }
    assert(!names_directory(raw@));
    let d = match parent_text(raw) {
        Some(d) => d,
        None => {
            let mut s = String::new();
            s.push('.');
            assert(s@ =~= seq!['.']);
            s
        },
    };
    let f = match file_name_text(raw) {
        Some(f) => f,
        None => String::new(),
    };
    (d, f)
}

/// The parent of `p`, or `d` when it has none.
pub open spec fn parent_or(p: Seq<char>, d: Seq<char>) -> Seq<char> {
    match path_parent(p) {
        Some(x) => x,
        None => d,
    }
}

/// `dir`, a slash and `name`; just `name` when `dir` is `.` or empty.
pub open spec fn under(dir: Seq<char>, name: Seq<char>) -> Seq<char> {
    if dir.len() == 0 || dir == seq!['.'] {
        name
    } else {
        dir + seq!['/'] + name
    }
}

/// The path shown for entry `name` found for the typed path `dp`: in the
/// directory `dp` names (keeping `~/` and a leading `/`).
pub open spec fn relative_path_spec(dp: Seq<char>, name: Seq<char>) -> Seq<char> {
    if dp.len() > 0 && dp.last() == '/' {
        dp + name
    } else if dp.contains('/') {
        if starts(dp, seq!['~', '/']) {
            seq!['~', '/'] + under(parent_or(dp.skip(2), Seq::empty()), name)
        } else if starts(dp, seq!['/']) {
            let d = parent_or(dp, seq!['/']);
            if d == seq!['/'] {
                seq!['/'] + name
            } else {
                d + seq!['/'] + name
            }
        } else {
            under(parent_or(dp, Seq::empty()), name)
        }
    } else if starts(dp, seq!['~']) {
        seq!['~', '/'] + name
    } else {
        name
    }
}

fn has_char(v: &Vec<char>, c: char) -> (r: bool)
    ensures
        r == v@.contains(c),
{
    let mut i: usize = 0;
    while i < v.len()
        invariant
            i <= v@.len(),
            forall|j: int| 0 <= j < i ==> v@[j] != c,
        decreases v@.len() - i,
    {
        if v[i] == c {
            assert(v@[i as int] == c);
            return true;
        }
        i = i + 1;
    }
    false
}

/// `dir`, a slash and `name` (just `name` for `.` or an empty `dir`).
fn join_under(dir: String, name: &str) -> (r: String)
    ensures
        r@ == under(dir@, name@),
{
    let dv = chars_of(dir.as_str());
    if dv.len() == 1 && dv[0] == '.' {
        assert(dv@ =~= seq!['.']);
    }
    if dv.len() == 0 || (dv.len() == 1 && dv[0] == '.') {
        return String::from_str(name);
    }
    let mut s = dir;
    s.push('/');
    s.append(name);
    s
}

/// The path shown for entry `name` found for the typed path `display_prefix`.
pub fn build_relative_path(display_prefix: &str, name: &str) -> (r: String)
    ensures
        r@ == relative_path_spec(display_prefix@, name@),
{
    let v = chars_of(display_prefix);
    let n = v.len();
    if n > 0 && v[n - 1] == '/' {
        return concat(display_prefix, name);
    }
    if n >= 2 {
        assert(v@.take(2)[0] == v@[0] && v@.take(2)[1] == v@[1]);
        if v[0] == '~' && v[1] == '/' {
            assert(v@.take(2) =~= seq!['~', '/']);
        }
    }
    if n >= 1 {
        assert(v@.take(1)[0] == v@[0]);
        if v[0] == '/' {
            assert(v@.take(1) =~= seq!['/']);
        }
        if v[0] == '~' {
            assert(v@.take(1) =~= seq!['~']);
        }
    }
    if has_char(&v, '/') {
        if n >= 2 && v[0] == '~' && v[1] == '/' {
            let rest = string_from_range(v.as_slice(), 2, n);
            assert(rest@ =~= display_prefix@.skip(2));
            let d = match parent_text(rest.as_str()) {
                Some(d) => d,
                None => String::new(),
            };
            let tail = join_under(d, name);
            let mut s = String::new();
            s.push('~');
            s.push('/');
            s.append(tail.as_str());
            assert(s@ =~= seq!['~', '/'] + tail@);
            return s;
        }
        if v[0] == '/' {
            let d = match parent_text(display_prefix) {
                Some(d) => d,
                None => {
                    let mut s = String::new();
                    s.push('/');
                    assert(s@ =~= seq!['/']);
                    s
                },
            };
            let dv = chars_of(d.as_str());
            if dv.len() == 1 && dv[0] == '/' {
                assert(dv@ =~= seq!['/']);
            }
            let mut s = if dv.len() == 1 && dv[0] == '/' {
                String::new()
            } else {
                d
            };
            s.push('/');
            s.append(name);
            return s;
        }
        let d = match parent_text(display_prefix) {
            Some(d) => d,
            None => String::new(),
        };
        return join_under(d, name);
    }
    if n > 0 && v[0] == '~' {
        let mut s = String::new();
        s.push('~');
        s.push('/');
        s.append(name);
        assert(s@ =~= seq!['~', '/'] + name@);
        return s;
    }
    String::from_str(name)
}

/// Whether `a` comes before `b` in code-point order.
pub open spec fn text_less(a: Seq<char>, b: Seq<char>) -> bool
    decreases a.len(),
{
    if a.len() == 0 {
        b.len() > 0
    } else if b.len() == 0 {
        false
    } else if a[0] != b[0] {
        (a[0] as u32) < (b[0] as u32)
    } else {
        text_less(a.drop_first(), b.drop_first())
    }
}

fn text_less_exec(a: &str, b: &str) -> (r: bool)
    ensures
        r == text_less(a@, b@),
{
    let av = chars_of(a);
    let bv = chars_of(b);
    let mut i: usize = 0;
    assert(av@.skip(0) =~= av@);
    assert(bv@.skip(0) =~= bv@);
    while i < av.len() && i < bv.len() && av[i] == bv[i]
        invariant
            i <= av@.len(),
            i <= bv@.len(),
            text_less(av@, bv@) == text_less(av@.skip(i as int), bv@.skip(i as int)),
        decreases av@.len() - i,
    {
        assert(av@.skip(i as int).drop_first() =~= av@.skip(i + 1));
        assert(bv@.skip(i as int).drop_first() =~= bv@.skip(i + 1));
        i = i + 1;
    }
    if i == av.len() {
        return i < bv.len();
    }
    assert(av@.skip(i as int)[0] == av@[i as int]);
    if i < bv.len() {
        assert(bv@.skip(i as int)[0] == bv@[i as int]);
    }
    if i == bv.len() {
        return false;
    }
    (av[i] as u32) < (bv[i] as u32)
}

/// Whether an inserted text completes a directory: it ends in `/` (or in
/// `/"`).
pub open spec fn value_is_dir(v: Seq<char>) -> bool {
    (v.len() > 0 && v.last() == '/') || (v.len() >= 2 && v[v.len() - 2] == '/' && v.last() == '"')
}

fn value_is_dir_exec(s: &str) -> (r: bool)
    ensures
        r == value_is_dir(s@),
{
    let v = chars_of(s);
    let n = v.len();
    (n > 0 && v[n - 1] == '/') || (n >= 2 && v[n - 2] == '/' && v[n - 1] == '"')
}

/// The order of file completions: directories first, then by label.
pub open spec fn file_before(
    a: (Seq<char>, Seq<char>, Option<Seq<char>>, Option<Seq<char>>),
    b: (Seq<char>, Seq<char>, Option<Seq<char>>, Option<Seq<char>>),
) -> bool {
    (value_is_dir(a.0) && !value_is_dir(b.0)) || (value_is_dir(a.0) == value_is_dir(b.0) && text_less(a.1, b.1))
}

fn file_before_exec(a: &AutocompleteItem, b: &AutocompleteItem) -> (r: bool)
    ensures
        r == file_before(item_text(*a), item_text(*b)),
{
    let ad = value_is_dir_exec(a.value.as_str());
    let bd = value_is_dir_exec(b.value.as_str());
    (ad && !bd) || (ad == bd && text_less_exec(a.label.as_str(), b.label.as_str()))
}

/// The first index at or after `i` whose item `x` goes before.
pub open spec fn first_after(
    s: Seq<(Seq<char>, Seq<char>, Option<Seq<char>>, Option<Seq<char>>)>,
    x: (Seq<char>, Seq<char>, Option<Seq<char>>, Option<Seq<char>>),
    i: int,
) -> int
    decreases s.len() - i,
{
    if i < 0 || i >= s.len() {
        s.len() as int
    } else if file_before(x, s[i]) {
        i
    } else {
        first_after(s, x, i + 1)
    }
}

/// The completion entry `e` gives for the typed path `p`, if it completes it:
/// its lower-case name starts with the lower-case name being typed, and it
/// is not `.git`. It inserts the path in the typed directory (a directory
/// with a `/` after it), quoted and `@`-marked as the prefix is; its label
/// is the name (a directory's with `/`).
pub open spec fn file_item_spec(p: Seq<char>, e: (Seq<char>, bool)) -> Option<
    (Seq<char>, Seq<char>, Option<Seq<char>>, Option<Seq<char>>),
> {
    let name = e.0;
    let dir = e.1;
    if !starts(unicode_lower(name), unicode_lower(search_name_spec(p))) || name == seq!['.', 'g', 'i', 't'] {
        None
    } else {
        let rel = relative_path_spec(parsed_raw(p), name);
        let pv = if dir {
            rel.push('/')
        } else {
            rel
        };
        Some(
            (
                completion_value(pv, dir, parsed_at(p), parsed_quoted(p)),
                if dir {
                    name.push('/')
                } else {
                    name
                },
                None,
                None,
            ),
        )
    }
}

/// The completions for the typed path `p` from the entries `es` of its
/// directory, directories first, then by label (entries that tie keep
/// their order).
pub open spec fn file_items_spec(p: Seq<char>, es: Seq<(Seq<char>, bool)>) -> Seq<
    (Seq<char>, Seq<char>, Option<Seq<char>>, Option<Seq<char>>),
>
    decreases es.len(),
{
    if es.len() == 0 {
        Seq::empty()
    } else {
        let r = file_items_spec(p, es.drop_last());
        match file_item_spec(p, es.last()) {
            Some(x) => r.insert(first_after(r, x, 0), x),
            None => r,
        }
    }
}

/// The completion for one entry, given the parsed prefix and the lower-case
/// name being typed.
fn file_item(
    prefix: &str,
    raw: &str,
    is_at: bool,
    is_quoted: bool,
    lower_name_part: &Vec<char>,
    e: &DirEntryInfo,
) -> (r: Option<AutocompleteItem>)
    requires
        raw@ == parsed_raw(prefix@),
        is_at == parsed_at(prefix@),
        is_quoted == parsed_quoted(prefix@),
        lower_name_part@ == unicode_lower(search_name_spec(prefix@)),
    ensures
        match r {
            Some(it) => file_item_spec(prefix@, (e.name@, e.is_dir)) == Some(item_text(it)),
            None => file_item_spec(prefix@, (e.name@, e.is_dir)) is None,
        },
{
    let lname = to_lowercase(e.name.as_str());
    let lv = chars_of(lname.as_str());
    if !starts_with_chars(&lv, lower_name_part) {
        return None;
    }
    let nv = chars_of(e.name.as_str());
    if nv.len() == 4 && nv[0] == '.' && nv[1] == 'g' && nv[2] == 'i' && nv[3] == 't' {
        assert(nv@ =~= seq!['.', 'g', 'i', 't']);
        return None;
    }
    proof {
        if nv@ == seq!['.', 'g', 'i', 't'] {
            assert(nv@[0] == '.' && nv@[1] == 'g' && nv@[2] == 'i' && nv@[3] == 't');
        }
    }
    assert(nv@ != seq!['.', 'g', 'i', 't']);
    let mut rel = build_relative_path(raw, e.name.as_str());
    if e.is_dir {
        rel.push('/');
    }
    let value = build_completion_value(rel.as_str(), e.is_dir, is_at, is_quoted);
    let mut label = e.name.clone();
    if e.is_dir {
        label.push('/');
    }
    Some(AutocompleteItem { value, label, description: None, hint: None })
}

/// The completions for the typed path `prefix` from the entries of the
/// directory that `file_search_plan` names, directories first, then by
/// label.
pub fn file_suggestions_from_entries(prefix: &str, entries: &Vec<DirEntryInfo>) -> (r: Vec<AutocompleteItem>)
    ensures
        items_text(r@) == file_items_spec(prefix@, entry_views(entries@)),
{
    let parsed = parse_path_prefix(prefix);
    let (_dir, name_part) = file_search_plan(prefix);
    let lower = to_lowercase(name_part.as_str());
    let lower_v = chars_of(lower.as_str());
    let ghost ev = entry_views(entries@);
    let mut out: Vec<AutocompleteItem> = Vec::new();
    let mut i: usize = 0;
    assert(ev.take(0) =~= Seq::<(Seq<char>, bool)>::empty());
    assert(items_text(out@) =~= file_items_spec(prefix@, ev.take(0)));
    while i < entries.len()
        invariant
            ev == entry_views(entries@),
            i <= entries@.len(),
            parsed.raw@ == parsed_raw(prefix@),
            parsed.is_at == parsed_at(prefix@),
            parsed.is_quoted == parsed_quoted(prefix@),
            lower_v@ == unicode_lower(search_name_spec(prefix@)),
            items_text(out@) == file_items_spec(prefix@, ev.take(i as int)),
        decreases entries@.len() - i,
    {
        let ghost z = items_text(out@);
        assert(ev.take(i + 1).drop_last() =~= ev.take(i as int));
        assert(ev.take(i + 1).last() == ev[i as int]);
        assert(ev[i as int] == (entries@[i as int].name@, entries@[i as int].is_dir));
        match file_item(prefix, parsed.raw.as_str(), parsed.is_at, parsed.is_quoted, &lower_v, &entries[i]) {
            Some(item) => {
                let ghost x = item_text(item);
                let mut pos: usize = 0;
                while pos < out.len() && !file_before_exec(&item, &out[pos])
                    invariant
                        pos <= out@.len(),
                        z == items_text(out@),
                        x == item_text(item),
                        first_after(z, x, 0) == first_after(z, x, pos as int),
                    decreases out@.len() - pos,
                {
                    pos = pos + 1;
                }
                assert(first_after(z, x, pos as int) == pos);
                out.insert(pos, item);
                assert(items_text(out@) =~= z.insert(pos as int, x));
            },
            None => {},
        }
        i = i + 1;
    }
    assert(ev.take(entries@.len() as int) =~= ev);
    out
}

} // verus!
