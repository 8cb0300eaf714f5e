//! Select list: a list of items with a selection that Up and Down move
//! (wrapping), filtered by a prefix of the items' values.

use vstd::prelude::*;
use vstd::string::*;

use crate::component::InputResult;
use crate::keys::match_key::{is_key, key_is};
use crate::strs::{chars_of, dec_digits, dec_string, str_eq};
use crate::style::Style;
use crate::symbols::SymbolTheme;

verus! {

/// An item of a select list.
#[derive(Debug, Clone)]
pub struct SelectItem {
    pub value: String,
    pub label: String,
    pub description: Option<String>,
    /// Dim hint shown beside the item while it is selected.
    pub hint: Option<String>,
}

impl SelectItem {
    pub fn new(value: &str, label: &str) -> (r: SelectItem)
        ensures
            r.value@ == value@,
            r.label@ == label@,
            r.description is None,
            r.hint is None,
    {
        SelectItem { value: String::from_str(value), label: String::from_str(label), description: None, hint: None }
    }

    /// The item with a description.
    pub fn with_description(self, desc: &str) -> (r: SelectItem)
        ensures
            r.value == self.value,
            r.label == self.label,
            r.hint == self.hint,
            r.description matches Some(d) && d@ == desc@,
    {
        let mut r = self;
        r.description = Some(String::from_str(desc));
        r
    }
}

/// Styles and symbols of a select list.
#[derive(Debug, Clone)]
pub struct SelectListTheme {
    pub selected_prefix: Style,
    pub selected_text: Style,
    pub description: Style,
    pub scroll_info: Style,
    pub no_match: Style,
    pub symbols: SymbolTheme,
}

/// What handling a key did to a select list, beyond consuming it.
#[derive(Debug, Clone, Copy, PartialEq, Eq, Structural)]
pub enum SelectEvent {
    /// Nothing to report.
    Nothing,
    /// The selection moved.
    SelectionChanged,
    /// The selected item was chosen.
    Selected,
    /// The list was dismissed.
    Cancelled,
}

/// The text `str::to_lowercase` makes of `s` (Unicode lower case).
pub uninterp spec fn unicode_lower(s: Seq<char>) -> Seq<char>;

/// Calls `str::to_lowercase`: `s` in Unicode lower case; an ASCII text
/// has its letters `A`-`Z` lowered and its other characters kept.
#[verifier::external_body]
pub(crate) fn to_lowercase(s: &str) -> (r: String)
    ensures
        r@ == unicode_lower(s@),
        vstd::utf8::is_ascii_chars(s@) ==> r@ == s@.map_values(|c: char| crate::keys::match_key::ascii_lower(c)),
{
    s.to_lowercase()
}

/// Whether `p` is a prefix of `s`.
pub open spec fn is_prefix(p: Seq<char>, s: Seq<char>) -> bool {
    p.len() <= s.len() && s.take(p.len() as int) == p
}

/// The indices, in order, of the first `n` items whose value, in lower
/// case, starts with `f` in lower case.
pub open spec fn filter_indices(items: Seq<SelectItem>, f: Seq<char>, n: int) -> Seq<usize>
    decreases n,
{
    if n <= 0 {
        Seq::empty()
    } else {
        filter_indices(items, f, n - 1) + if is_prefix(unicode_lower(f), unicode_lower(items[n - 1].value@)) {
            seq![(n - 1) as usize]
        } else {
            Seq::empty()
        }
    }
}

/// `s` with its ASCII letters `A`-`Z` lowered.
pub open spec fn ascii_lowercase(s: Seq<char>) -> Seq<char> {
    s.map_values(|c: char| crate::keys::match_key::ascii_lower(c))
}

/// An item passes the filter exactly when its value, in lower case, starts
/// with the filter in lower case; the kept indices are below `n` and come
/// in increasing order.
pub proof fn law_filter_keeps_matching_items(items: Seq<SelectItem>, f: Seq<char>, n: int)
    requires
        0 <= n <= items.len(),
        n <= usize::MAX,
    ensures
        forall|j: int|
            0 <= j < n ==> (#[trigger] filter_indices(items, f, n).contains(j as usize) <==> is_prefix(
                unicode_lower(f),
                unicode_lower(items[j].value@),
            )),
        forall|a: int| 0 <= a < filter_indices(items, f, n).len() ==> #[trigger] filter_indices(items, f, n)[a] < n,
        forall|a: int, b: int|
            0 <= a < b < filter_indices(items, f, n).len() ==> #[trigger] filter_indices(items, f, n)[a]
                < #[trigger] filter_indices(items, f, n)[b],
    decreases n,
{
    if n > 0 {
        law_filter_keeps_matching_items(items, f, n - 1);
        let r = filter_indices(items, f, n - 1);
        let keep = is_prefix(unicode_lower(f), unicode_lower(items[n - 1].value@));
        let t: Seq<usize> = if keep {
            seq![(n - 1) as usize]
        } else {
            Seq::empty()
        };
        let r2 = filter_indices(items, f, n);
        assert(r2 == r + t);
        assert forall|j: int| 0 <= j < n implies (#[trigger] r2.contains(j as usize) <==> is_prefix(
            unicode_lower(f),
            unicode_lower(items[j].value@),
        )) by {
            if r2.contains(j as usize) {
                let k = choose|k: int| 0 <= k < r2.len() && r2[k] == j as usize;
                if k < r.len() {
                    assert(r[k] == j as usize);
                    assert(r.contains(j as usize));
                    assert(j < n - 1);
                } else {
                    assert(t[k - r.len()] == j as usize);
                    assert(j == n - 1);
                }
            }
            if is_prefix(unicode_lower(f), unicode_lower(items[j].value@)) {
                if j < n - 1 {
                    assert(r.contains(j as usize));
                    let k = choose|k: int| 0 <= k < r.len() && r[k] == j as usize;
                    assert(r2[k] == j as usize);
                } else {
                    assert(r2[r.len() as int] == j as usize);
                }
            }
        }
        assert forall|a: int| 0 <= a < r2.len() implies #[trigger] r2[a] < n by {
            if a < r.len() {
                assert(r2[a] == r[a]);
            }
        }
        assert forall|a: int, b: int| 0 <= a < b < r2.len() implies #[trigger] r2[a] < #[trigger] r2[b] by {
            if b < r.len() {
                assert(r2[a] == r[a] && r2[b] == r[b]);
            } else {
                assert(r2[a] == r[a]);
            }
        }
    }
}

/// Filters that read the same in lower case keep the same items.
proof fn lemma_filter_same_lowercase(items: Seq<SelectItem>, f: Seq<char>, g: Seq<char>, n: int)
    requires
        unicode_lower(f) == unicode_lower(g),
    ensures
        filter_indices(items, f, n) == filter_indices(items, g, n),
    decreases n,
{
    if n > 0 {
        lemma_filter_same_lowercase(items, f, g, n - 1);
    }
}

/// Filtering does not depend on case: items whose values read the same in
/// lower case pass or fail the filter together, and filters that read the
/// same in lower case keep the same items.
pub proof fn law_filter_ignores_case(items: Seq<SelectItem>, f: Seq<char>, g: Seq<char>, i: int, j: int)
    requires
        0 <= i < items.len(),
        0 <= j < items.len(),
        items.len() <= usize::MAX,
        unicode_lower(items[i].value@) == unicode_lower(items[j].value@),
    ensures
        filter_indices(items, f, items.len() as int).contains(i as usize) <==> filter_indices(
            items,
            f,
            items.len() as int,
        ).contains(j as usize),
        unicode_lower(f) == unicode_lower(g) ==> filter_indices(items, f, items.len() as int)
            == filter_indices(items, g, items.len() as int),
{
    law_filter_keeps_matching_items(items, f, items.len() as int);
    assert(filter_indices(items, f, items.len() as int).contains(i as usize) == is_prefix(
        unicode_lower(f),
        unicode_lower(items[i].value@),
    ));
    assert(filter_indices(items, f, items.len() as int).contains(j as usize) == is_prefix(
        unicode_lower(f),
        unicode_lower(items[j].value@),
    ));
    if unicode_lower(f) == unicode_lower(g) {
        lemma_filter_same_lowercase(items, f, g, items.len() as int);
    }
}

/// Whether `p` is a prefix of `s`.
fn starts_with(s: &str, p: &str) -> (r: bool)
    ensures
        r == is_prefix(p@, s@),
{
    let sv = chars_of(s);
    let pv = chars_of(p);
    if pv.len() > sv.len() {
        return false;
    }
    let mut i: usize = 0;
    while i < pv.len()
        invariant
            pv@ == p@,
            sv@ == s@,
            pv@.len() <= sv@.len(),
            i <= pv@.len(),
            forall|j: int| 0 <= j < i ==> sv@[j] == pv@[j],
        decreases pv@.len() - i,
    {
        if sv[i] != pv[i] {
            assert(s@.take(p@.len() as int)[i as int] != p@[i as int]);
            return false;
        }
        i = i + 1;
    }
    assert(s@.take(p@.len() as int) =~= p@);
    true
}

impl SelectListTheme {
    /// A theme that leaves all text unstyled, with the plain symbols.
    pub fn plain() -> (t: SelectListTheme)
        ensures
            t.selected_prefix.prefix@.len() == 0 && t.selected_prefix.suffix@.len() == 0,
            t.selected_text.prefix@.len() == 0 && t.selected_text.suffix@.len() == 0,
            t.description.prefix@.len() == 0 && t.description.suffix@.len() == 0,
            t.scroll_info.prefix@.len() == 0 && t.scroll_info.suffix@.len() == 0,
            t.no_match.prefix@.len() == 0 && t.no_match.suffix@.len() == 0,
            t.symbols.cursor@ == ">"@,
    {
        SelectListTheme {
            selected_prefix: Style::plain(),
            selected_text: Style::plain(),
            description: Style::plain(),
            scroll_info: Style::plain(),
            no_match: Style::plain(),
            symbols: SymbolTheme::plain(),
        }
    }
}

/// What a key `d` does to a select list `a`, giving `b` and `r`: Up and
/// Down move the selection (wrapping), Enter chooses the selected item,
/// Escape or Ctrl+C dismisses the list; with no item passing the filter
/// every key is ignored.
pub open spec fn list_key_done(a: SelectList, b: SelectList, r: (InputResult, SelectEvent), d: Seq<char>) -> bool {
    let bytes = vstd::utf8::encode_utf8(d);
    let total = a.filtered().len() as int;
    let sel = a.selected();
    &&& b.items_view() == a.items_view()
    &&& b.filtered() == a.filtered()
    &&& b.visible() == a.visible()
    &&& if total == 0 {
        r == (InputResult::Ignored, SelectEvent::Nothing) && b.selected() == sel
    } else if is_key(bytes, "up"@, false) {
        r == (InputResult::Consumed, SelectEvent::SelectionChanged) && b.selected() == (if sel == 0 {
            total - 1
        } else {
            sel - 1
        })
    } else if is_key(bytes, "down"@, false) {
        r == (InputResult::Consumed, SelectEvent::SelectionChanged) && b.selected() == (if sel >= total - 1 {
            0
        } else {
            sel + 1
        })
    } else if is_key(bytes, "enter"@, false) || is_key(bytes, "return"@, false) || d == "\n"@ {
        r == (InputResult::Consumed, SelectEvent::Selected) && b.selected() == sel
    } else if is_key(bytes, "escape"@, false) || is_key(bytes, "esc"@, false) || is_key(bytes, "ctrl+c"@, false) {
        r == (InputResult::Consumed, SelectEvent::Cancelled) && b.selected() == sel
    } else {
        r == (InputResult::Ignored, SelectEvent::Nothing) && b.selected() == sel
    }
}

/// Down and then Up leaves the selection where it was (on a selected item).
pub proof fn law_down_then_up(
    a: SelectList,
    b: SelectList,
    c: SelectList,
    r1: (InputResult, SelectEvent),
    r2: (InputResult, SelectEvent),
    down: Seq<char>,
    up: Seq<char>,
)
    requires
        0 <= a.selected() < a.filtered().len(),
        is_key(vstd::utf8::encode_utf8(down), "down"@, false),
        !is_key(vstd::utf8::encode_utf8(down), "up"@, false),
        is_key(vstd::utf8::encode_utf8(up), "up"@, false),
        list_key_done(a, b, r1, down),
        list_key_done(b, c, r2, up),
    ensures
        c.selected() == a.selected(),
        c.filtered() == a.filtered(),
        c.items_view() == a.items_view(),
{
}

/// The rows a list of `total` rows shows with room for `v`, the selection
/// at `sel`: from `start` (the selection about in the middle, the window
/// within the list) to before `end`.
pub open spec fn list_window(total: int, v: int, sel: int) -> (int, int) {
    let half = v / 2;
    let from = if sel > half {
        sel - half
    } else {
        0
    };
    let last_start = if total > v {
        total - v
    } else {
        0
    };
    let start = if from < last_start {
        from
    } else {
        last_start
    };
    (start, if start + v < total {
        start + v
    } else {
        total
    })
}

/// A scrollable list with a selection.
pub struct SelectList {
    items: Vec<SelectItem>,
    filtered_items: Vec<usize>,
    selected_index: usize,
    max_visible: usize,
    theme: SelectListTheme,
}

impl SelectList {
    #[verifier::type_invariant]
    spec fn indices_valid(self) -> bool {
        forall|i: int| 0 <= i < self.filtered_items@.len() ==> #[trigger] self.filtered_items@[i] < self.items@.len()
    }

    /// The items.
    pub closed spec fn items_view(&self) -> Seq<SelectItem> {
        self.items@
    }

    /// The indices of the items that pass the filter, in order.
    pub closed spec fn filtered(&self) -> Seq<usize> {
        self.filtered_items@
    }

    /// The position of the selection among the filtered items.
    pub closed spec fn selected(&self) -> int {
        self.selected_index as int
    }

    /// How many items show at once.
    pub closed spec fn visible(&self) -> nat {
        self.max_visible as nat
    }

    /// The rows shown, from `start` to before `end` of the filtered items
    /// (see `list_window`).
    pub fn visible_window(&self) -> (r: (usize, usize))
        ensures
            (r.0 as int, r.1 as int) == list_window(self.filtered().len() as int, self.visible() as int, self.selected()),
    {
        let total = self.filtered_items.len();
        let half = self.max_visible / 2;
        let from = if self.selected_index > half {
            self.selected_index - half
        } else {
            0
        };
        let last_start = if total > self.max_visible {
            total - self.max_visible
        } else {
            0
        };
        let start = if from < last_start {
            from
        } else {
            last_start
        };
        let end = if total - start > self.max_visible {
            start + self.max_visible
        } else {
            total
        };
        (start, end)
    }

    /// The scroll indicator shown under the rows when some are hidden:
    /// `  (n/total)`, `n` being the selection's position from 1.
    pub fn scroll_indicator(&self) -> (r: Option<String>)
        requires
            self.selected() < usize::MAX,
        ensures
            ({
                let w = list_window(self.filtered().len() as int, self.visible() as int, self.selected());
                r is Some <==> (w.0 > 0 || w.1 < self.filtered().len())
            }),
            r matches Some(t) ==> t@ == seq![' ', ' ', '('] + dec_digits((self.selected() + 1) as nat) + seq!['/']
                + dec_digits(self.filtered().len()) + seq![')'],
    {
        let (start, end) = self.visible_window();
        let total = self.filtered_items.len();
        if start > 0 || end < total {
            let mut t = String::new();
            t.push(' ');
            t.push(' ');
            t.push('(');
            let a = dec_string((self.selected_index + 1) as u64);
            t.append(a.as_str());
            t.push('/');
            let b = dec_string(total as u64);
            t.append(b.as_str());
            t.push(')');
            assert(t@ =~= seq![' ', ' ', '('] + dec_digits((self.selected() + 1) as nat) + seq!['/'] + dec_digits(
                self.filtered().len(),
            ) + seq![')']);
            return Some(t);
        }
        None
    }

    /// A list showing all `items`, the first selected.
    pub fn new(items: Vec<SelectItem>, max_visible: usize, theme: SelectListTheme) -> (l: SelectList)
        ensures
            l.items_view() == items@,
            l.filtered() == Seq::new(items@.len(), |i: int| i as usize),
            l.selected() == 0,
            l.visible() == max_visible,
    {
        let n = items.len();
        let mut filtered_items: Vec<usize> = Vec::new();
        let mut i: usize = 0;
        while i < n
            invariant
                n == items@.len(),
                i <= n,
                filtered_items@ == Seq::new(i as nat, |j: int| j as usize),
            decreases n - i,
        {
            filtered_items.push(i);
            i = i + 1;
            assert(filtered_items@ =~= Seq::new(i as nat, |j: int| j as usize));
        }
        SelectList { items, filtered_items, selected_index: 0, max_visible, theme }
    }

    /// Keep the items whose value starts with `filter` (both in lower
    /// case), and select the first of them.
    pub fn set_filter(&mut self, filter: &str)
        ensures
            final(self).items_view() == old(self).items_view(),
            final(self).filtered() == filter_indices(
                old(self).items_view(),
                filter@,
                old(self).items_view().len() as int,
            ),
            final(self).selected() == 0,
            final(self).visible() == old(self).visible(),
            vstd::utf8::is_ascii_chars(filter@) ==> forall|j: int|
                0 <= j < old(self).items_view().len() && vstd::utf8::is_ascii_chars(
                    old(self).items_view()[j].value@,
                ) ==> (#[trigger] final(self).filtered().contains(j as usize) <==> is_prefix(
                    ascii_lowercase(filter@),
                    ascii_lowercase(old(self).items_view()[j].value@),
                )),
    {
        let f = to_lowercase(filter);
        let n = self.items.len();
        let mut kept: Vec<usize> = Vec::new();
        let mut i: usize = 0;
        while i < n
            invariant
                n == self.items@.len(),
                i <= n,
                f@ == unicode_lower(filter@),
                kept@ == filter_indices(self.items@, filter@, i as int),
                forall|j: int| 0 <= j < kept@.len() ==> #[trigger] kept@[j] < i,
                vstd::utf8::is_ascii_chars(filter@) ==> unicode_lower(filter@) == ascii_lowercase(filter@),
                forall|j: int|
                    0 <= j < i && vstd::utf8::is_ascii_chars(#[trigger] self.items@[j].value@) ==> unicode_lower(
                        self.items@[j].value@,
                    ) == ascii_lowercase(self.items@[j].value@),
            decreases n - i,
        {
            let v = to_lowercase(self.items[i].value.as_str());
            if starts_with(v.as_str(), f.as_str()) {
                kept.push(i);
            }
            i = i + 1;
        }
        proof {
            law_filter_keeps_matching_items(self.items@, filter@, n as int);
        }
        self.filtered_items = kept;
        self.selected_index = 0;
    }

    /// Select position `index` among the filtered items (clamped to the
    /// last); nothing happens when no item passes the filter.
    pub fn set_selected_index(&mut self, index: usize)
        ensures
            final(self).items_view() == old(self).items_view(),
            final(self).filtered() == old(self).filtered(),
            final(self).visible() == old(self).visible(),
            old(self).filtered().len() == 0 ==> final(self).selected() == old(self).selected(),
            old(self).filtered().len() > 0 ==> final(self).selected() == if index < old(self).filtered().len() - 1 {
                index as int
            } else {
                old(self).filtered().len() - 1
            },
    {
        proof {
            use_type_invariant(&*self);
        }
        let n = self.filtered_items.len();
        if n > 0 {
            self.selected_index = if index < n - 1 {
                index
            } else {
                n - 1
            };
        }
    }

    /// The selected item, if the selection is on a filtered item.
    pub fn selected_item(&self) -> (r: Option<&SelectItem>)
        ensures
            0 <= self.selected() < self.filtered().len() ==> r == Some(
                &self.items_view()[self.filtered()[self.selected()] as int],
            ),
            !(0 <= self.selected() < self.filtered().len()) ==> r is None,
    {
        proof {
            use_type_invariant(self);
        }
        if self.selected_index < self.filtered_items.len() {
            let idx = self.filtered_items[self.selected_index];
            Some(&self.items[idx])
        } else {
            None
        }
    }

    /// The position of the selection among the filtered items.
    pub fn selected_index(&self) -> (r: usize)
        ensures
            r == self.selected(),
    {
        self.selected_index
    }

    /// How many items pass the filter.
    pub fn filtered_count(&self) -> (r: usize)
        ensures
            r == self.filtered().len(),
    {
        self.filtered_items.len()
    }

    /// Handle a key: Up and Down move the selection (wrapping), Enter
    /// chooses the selected item, Escape or Ctrl+C dismisses the list. With
    /// no item passing the filter every key is ignored.
    pub fn handle_input(&mut self, data: &str) -> (r: (InputResult, SelectEvent))
        ensures
            list_key_done(*old(self), *final(self), r, data@),
    {
        proof {
            use_type_invariant(&*self);
        }
        let bytes = data.as_bytes();
        let total = self.filtered_items.len();
        if total == 0 {
            return (InputResult::Ignored, SelectEvent::Nothing);
        }
        if key_is(bytes, "up", false) {
            self.selected_index = if self.selected_index == 0 {
                total - 1
            } else {
                self.selected_index - 1
            };
            return (InputResult::Consumed, SelectEvent::SelectionChanged);
        }
        if key_is(bytes, "down", false) {
            self.selected_index = if self.selected_index >= total - 1 {
                0
            } else {
                self.selected_index + 1
            };
            return (InputResult::Consumed, SelectEvent::SelectionChanged);
        }
        let is_newline = str_eq(data, "\n");
        if key_is(bytes, "enter", false) || key_is(bytes, "return", false) || is_newline {
            return (InputResult::Consumed, SelectEvent::Selected);
        }
        if key_is(bytes, "escape", false) || key_is(bytes, "esc", false) || key_is(
            bytes,
            "ctrl+c",
            false,
        ) {
            return (InputResult::Consumed, SelectEvent::Cancelled);
        }
        (InputResult::Ignored, SelectEvent::Nothing)
    }
}

} // verus!
