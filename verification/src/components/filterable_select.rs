//! Filterable select: a tab bar, a search input and a select list. The
//! items shown are those of the active tab (every item on the first, the
//! "all" tab) that match the search. Ranking the matches of a search is
//! fuzzy scoring, which its owner does: the component hands out a request
//! with the query and the candidates, and takes the ranked matches back.

use vstd::prelude::*;
use vstd::string::*;
use vstd::utf8::*;

use super::input::{handled, Input, InputView};
use super::select_list::{SelectItem, SelectList, SelectListTheme};
use super::tab_bar::{Tab, TabBar, TabBarTheme};
use crate::component::InputResult;
use crate::keys::match_key::{is_key, key_is};
use crate::strs::str_eq;
use crate::style::Style;

verus! {

/// An item of a filterable select: a select item and the tab it belongs to.
#[derive(Debug, Clone)]
pub struct FilterableSelectItem {
    pub value: String,
    pub label: String,
    pub description: Option<String>,
    pub tab_id: String,
}

/// Styles of a filterable select.
#[derive(Debug, Clone)]
pub struct FilterableSelectTheme {
    pub tab_bar: TabBarTheme,
    pub select_list: SelectListTheme,
    pub search_hint: Style,
    pub border: Style,
}

/// A search to rank: the query and the indices of the items of the active
/// tab, in order.
#[derive(Debug, Clone)]
pub struct FilterRequest {
    pub query: String,
    pub candidates: Vec<usize>,
}

/// Abstract filterable select.
pub struct FilterableView {
    pub items: Seq<FilterableSelectItem>,
    pub tabs: Seq<Tab>,
    pub active: int,
    pub search: InputView,
    pub list: SelectList,
    pub all_tab_id: Seq<char>,
    pub max_visible: usize,
    pub cancelled: bool,
    pub request: Option<(Seq<char>, Seq<usize>)>,
}

/// The view of an optional string.
pub open spec fn opt_view(o: Option<String>) -> Option<Seq<char>> {
    match o {
        Some(s) => Some(s@),
        None => None,
    }
}

/// Select item `s` shows filterable item `it`.
pub open spec fn shows_item(s: SelectItem, it: FilterableSelectItem) -> bool {
    &&& s.value@ == it.value@
    &&& s.label@ == it.label@
    &&& opt_view(s.description) == opt_view(it.description)
    &&& s.hint is None
}

/// `list` holds the items of `items` at the indices `idx`, all shown, the
/// first selected.
pub open spec fn list_of(list: SelectList, items: Seq<FilterableSelectItem>, idx: Seq<usize>, max_visible: usize) -> bool {
    &&& list.items_view().len() == idx.len()
    &&& forall|k: int| 0 <= k < idx.len() ==> shows_item(#[trigger] list.items_view()[k], items[idx[k] as int])
    &&& list.filtered() == Seq::new(idx.len(), |i: int| i as usize)
    &&& list.selected() == 0
    &&& list.visible() == max_visible
}

/// The id of the active tab, if the index names one.
pub open spec fn active_id(tabs: Seq<Tab>, active: int) -> Option<Seq<char>> {
    if 0 <= active < tabs.len() {
        Some(tabs[active].id@)
    } else {
        None
    }
}

/// The indices below `n` of the items in tab `id` (all of them when `id` is
/// the "all" tab), in order.
pub open spec fn tab_candidates(items: Seq<FilterableSelectItem>, id: Option<Seq<char>>, all_id: Seq<char>, n: int) -> Seq<usize>
    decreases n,
{
    if n <= 0 {
        Seq::empty()
    } else {
        let rest = tab_candidates(items, id, all_id, n - 1);
        if id == Some(all_id) || id == Some(items[n - 1].tab_id@) {
            rest.push((n - 1) as usize)
        } else {
            rest
        }
    }
}

/// The filter applied to `v`, giving `f`: without a query the list shows
/// the items of the active tab; with one, a request to rank them is made.
pub open spec fn refiltered(v: FilterableView, f: FilterableView) -> bool {
    let cands = tab_candidates(v.items, active_id(v.tabs, v.active), v.all_tab_id, v.items.len() as int);
    &&& f == (FilterableView { list: f.list, request: f.request, ..v })
    &&& if v.search.value.len() == 0 {
        f.request is None && list_of(f.list, v.items, cands, v.max_visible)
    } else {
        f.list == v.list && (f.request matches Some((q, c)) && encode_utf8(q) == v.search.value && c == cands)
    }
}

/// The list after Up or Down (`d`): the selection moves, wrapping.
pub open spec fn list_moved(a: SelectList, b: SelectList, d: Seq<char>) -> bool {
    let total = a.filtered().len() as int;
    let sel = a.selected();
    let bytes = encode_utf8(d);
    &&& b.items_view() == a.items_view()
    &&& b.filtered() == a.filtered()
    &&& b.visible() == a.visible()
    &&& b.selected() == if total == 0 {
        sel
    } else if is_key(bytes, "up"@, false) {
        if sel == 0 {
            total - 1
        } else {
            sel - 1
        }
    } else if sel >= total - 1 {
        0
    } else {
        sel + 1
    }
}

/// The selected item of `list`, if any.
pub open spec fn selected_of(list: SelectList) -> Option<SelectItem> {
    if 0 <= list.selected() < list.filtered().len() {
        Some(list.items_view()[list.filtered()[list.selected()] as int])
    } else {
        None
    }
}

/// What handling input `d` does: Escape or Ctrl+C cancels, Enter submits
/// the selected value, Up and Down move the selection, Tab and Shift+Tab
/// cycle the tabs, anything else edits the search (typing into an empty
/// search goes to the first tab); the items are filtered again after each
/// change of tab or search. All input is consumed.
pub open spec fn select_input_done(v: FilterableView, f: FilterableView, r: InputResult, d: Seq<char>) -> bool {
    let b = encode_utf8(d);
    let n = v.tabs.len() as int;
    if is_key(b, "escape"@, false) || is_key(b, "esc"@, false) || d == seq!['\x03'] {
        r == InputResult::Consumed && f == (FilterableView { cancelled: true, ..v })
    } else if is_key(b, "enter"@, false) || is_key(b, "return"@, false) || d == seq!['\n'] {
        f == v && match selected_of(v.list) {
            Some(item) => r matches InputResult::Submit(s) && s@ == item.value@,
            None => r == InputResult::Consumed,
        }
    } else if is_key(b, "up"@, false) || is_key(b, "down"@, false) {
        r == InputResult::Consumed && f == (FilterableView { list: f.list, ..v }) && list_moved(v.list, f.list, d)
    } else if is_key(b, "tab"@, false) || is_key(b, "shift+tab"@, false) {
        r == InputResult::Consumed && tab_switched(v, f, d)
    } else {
        r == InputResult::Consumed && search_edited(v, f, d)
    }
}

/// Tab or Shift+Tab (`d`): the next or previous tab (as the tab bar reads
/// the key), then the items filtered again.
pub open spec fn tab_switched(v: FilterableView, f: FilterableView, d: Seq<char>) -> bool {
    let b = encode_utf8(d);
    let n = v.tabs.len() as int;
    let next = is_key(b, "tab"@, false) || is_key(b, "right"@, false);
    &&& n > 0 && next ==> f.active == (v.active + 1) % n
    &&& n > 0 && !next ==> f.active == (v.active + n - 1) % n
    &&& n == 0 ==> f.active == v.active
    &&& refiltered(FilterableView { active: f.active, ..v }, f)
}

/// Other input (`d`) goes to the search; when it changed the search (or is
/// a backspace) the items are filtered again, after moving to the first
/// tab when text was typed into an empty search.
pub open spec fn search_edited(v: FilterableView, f: FilterableView, d: Seq<char>) -> bool {
    let b = encode_utf8(d);
    let n = v.tabs.len() as int;
    let h = handled(v.search, d);
    let backspace = is_key(b, "backspace"@, false) || d == seq!['\x7f'];
    let to_first = !backspace && v.search.value.len() == 0 && h.0.value.len() > 0 && n > 0;
    if backspace || h.1 == InputResult::Consumed {
        refiltered(FilterableView { search: h.0, active: if to_first { 0 } else { v.active }, ..v }, f)
    } else {
        f == (FilterableView { search: h.0, ..v })
    }
}

/// A tabbed, searchable select list.
pub struct FilterableSelect {
    items: Vec<FilterableSelectItem>,
    tab_bar: TabBar,
    search: Input,
    list: SelectList,
    theme: FilterableSelectTheme,
    all_tab_id: String,
    max_visible: usize,
    cancelled: bool,
    request: Option<FilterRequest>,
}

impl View for FilterableSelect {
    type V = FilterableView;

    closed spec fn view(&self) -> FilterableView {
        FilterableView {
            items: self.items@,
            tabs: self.tab_bar.tabs_view(),
            active: self.tab_bar.active(),
            search: self.search@,
            list: self.list,
            all_tab_id: self.all_tab_id@,
            max_visible: self.max_visible,
            cancelled: self.cancelled,
            request: match self.request {
                Some(q) => Some((q.query@, q.candidates@)),
                None => None,
            },
        }
    }
}

/// Select items showing `items` at the indices `idx`.
fn select_items_at(items: &Vec<FilterableSelectItem>, idx: &Vec<usize>) -> (r: Vec<SelectItem>)
    requires
        forall|k: int| 0 <= k < idx@.len() ==> #[trigger] idx@[k] < items@.len(),
    ensures
        r@.len() == idx@.len(),
        forall|k: int| 0 <= k < idx@.len() ==> shows_item(#[trigger] r@[k], items@[idx@[k] as int]),
{
    let mut r: Vec<SelectItem> = Vec::new();
    let mut k: usize = 0;
    while k < idx.len()
        invariant
            k <= idx@.len(),
            forall|j: int| 0 <= j < idx@.len() ==> #[trigger] idx@[j] < items@.len(),
            r@.len() == k,
            forall|j: int| 0 <= j < k ==> shows_item(#[trigger] r@[j], items@[idx@[j] as int]),
        decreases idx@.len() - k,
    {
        let it = &items[idx[k]];
        let si = SelectItem::new(it.value.as_str(), it.label.as_str());
        let si = match &it.description {
            Some(desc) => si.with_description(desc.as_str()),
            None => si,
        };
        r.push(si);
        k = k + 1;
    }
    r
}

/// The indices 0 to `n`.
fn all_indices(n: usize) -> (r: Vec<usize>)
    ensures
        r@ == Seq::new(n as nat, |i: int| i as usize),
{
    let mut r: Vec<usize> = Vec::new();
    let mut i: usize = 0;
    while i < n
        invariant
            i <= n,
            r@ == Seq::new(i as nat, |j: int| j as usize),
        decreases n - i,
    {
        r.push(i);
        i = i + 1;
        assert(r@ =~= Seq::new(i as nat, |j: int| j as usize));
    }
    r
}

impl FilterableSelect {
    /// The active tab is within the tabs, the search input is well formed,
    /// and a pending request names items.
    pub closed spec fn inv(&self) -> bool {
        &&& self.search.inv()
        &&& 0 <= self.tab_bar.active() <= self.tab_bar.tabs_view().len()
        &&& self.request matches Some(q) ==> forall|k: int|
            0 <= k < q.candidates@.len() ==> #[trigger] q.candidates@[k] < self.items@.len()
    }

    /// A filterable select over `items` with `tabs` (the first tab shows
    /// every item), all items shown and the first selected.
    pub fn new(tabs: Vec<Tab>, items: Vec<FilterableSelectItem>, max_visible: usize, theme: FilterableSelectTheme) -> (r: Self)
        ensures
            r.inv(),
            r@.items == items@,
            r@.tabs == tabs@,
            r@.active == 0,
            r@.search.value.len() == 0,
            r@.all_tab_id == if tabs@.len() > 0 {
                tabs@[0].id@
            } else {
                "all"@
            },
            r@.max_visible == max_visible,
            !r@.cancelled,
            r@.request is None,
            list_of(r@.list, items@, Seq::new(items@.len(), |i: int| i as usize), max_visible),
    {
        let all_tab_id = if tabs.len() > 0 {
            String::from_str(tabs[0].id.as_str())
        } else {
            String::from_str("all")
        };
        let tab_bar = TabBar::new("Provider", tabs, TabBarTheme::plain());
        let search = Input::new();
        let idx = all_indices(items.len());
        let list = SelectList::new(select_items_at(&items, &idx), max_visible, SelectListTheme::plain());
        FilterableSelect {
            items,
            tab_bar,
            search,
            list,
            theme,
            all_tab_id,
            max_visible,
            cancelled: false,
            request: None,
        }
    }

    /// Value of the highlighted item.
    pub fn selected_value(&self) -> (r: Option<&str>)
        ensures
            match selected_of(self@.list) {
                Some(item) => r matches Some(v) && v@ == item.value@,
                None => r is None,
            },
    {
        match self.list.selected_item() {
            Some(item) => Some(item.value.as_str()),
            None => None,
        }
    }

    /// The items.
    pub fn items(&self) -> (r: &[FilterableSelectItem])
        ensures
            r@ == self@.items,
    {
        self.items.as_slice()
    }

    /// Whether Escape or Ctrl+C was pressed.
    pub fn is_cancelled(&self) -> (r: bool)
        ensures
            r == self@.cancelled,
    {
        self.cancelled
    }

    /// The index of the active tab.
    pub fn active_tab_index(&self) -> (r: usize)
        ensures
            r == self@.active,
    {
        self.tab_bar.active_index()
    }

    /// The search text.
    pub fn search_value(&self) -> (r: &str)
        requires
            self.inv(),
        ensures
            encode_utf8(r@) == self@.search.value,
    {
        self.search.value()
    }

    /// The pending search to rank, if any (taken away).
    pub fn take_filter_request(&mut self) -> (r: Option<FilterRequest>)
        requires
            old(self).inv(),
        ensures
            final(self).inv(),
            final(self)@ == (FilterableView { request: None, ..old(self)@ }),
            match r {
                Some(q) => old(self)@.request == Some((q.query@, q.candidates@)),
                None => old(self)@.request is None,
            },
    {
        self.request.take()
    }

    /// Show the items at `matches` (the ranked matches of a search), the
    /// first selected.
    pub fn set_matches(&mut self, matches: &Vec<usize>)
        requires
            old(self).inv(),
            forall|k: int| 0 <= k < matches@.len() ==> #[trigger] matches@[k] < old(self)@.items.len(),
        ensures
            final(self).inv(),
            final(self)@ == (FilterableView { list: final(self)@.list, ..old(self)@ }),
            list_of(final(self)@.list, old(self)@.items, matches@, old(self)@.max_visible),
    {
        let shown = select_items_at(&self.items, matches);
        let n = shown.len();
        self.list = SelectList::new(shown, self.max_visible, SelectListTheme::plain());
        proof {
            assert(self.list.items_view().len() == n);
        }
    }

    /// The indices of the items of the active tab (every item on the "all"
    /// tab), in order.
    fn tab_filtered(&self) -> (r: Vec<usize>)
        ensures
            r@ == tab_candidates(self@.items, active_id(self@.tabs, self@.active), self@.all_tab_id, self@.items.len() as int),
            forall|k: int| 0 <= k < r@.len() ==> #[trigger] r@[k] < self@.items.len(),
    {
        let active_id_str: Option<&str> = match self.tab_bar.active_tab() {
            Some(t) => Some(t.id.as_str()),
            None => None,
        };
        let is_all = match active_id_str {
            Some(id) => str_eq(id, self.all_tab_id.as_str()),
            None => false,
        };
        let ghost id = active_id(self@.tabs, self@.active);
        let n = self.items.len();
        let mut r: Vec<usize> = Vec::new();
        let mut i: usize = 0;
        while i < n
            invariant
                n == self.items@.len(),
                i <= n,
                id == active_id(self@.tabs, self@.active),
                is_all == (id == Some(self.all_tab_id@)),
                match active_id_str {
                    Some(s) => id == Some(s@),
                    None => id is None,
                },
                r@ == tab_candidates(self.items@, id, self.all_tab_id@, i as int),
                forall|k: int| 0 <= k < r@.len() ==> #[trigger] r@[k] < i,
            decreases n - i,
        {
            let keep = is_all || match active_id_str {
                Some(s) => str_eq(s, self.items[i].tab_id.as_str()),
                None => false,
            };
            if keep {
                r.push(i);
            }
            i = i + 1;
        }
        r
    }

    /// Handle a key (see `select_input_done`); all input is consumed.
    pub fn handle_input(&mut self, data: &str) -> (r: InputResult)
        requires
            old(self).inv(),
        ensures
            final(self).inv(),
            select_input_done(old(self)@, final(self)@, r, data@),
    {
        let b = data.as_bytes();
        proof {
            reveal_strlit("\x03");
            reveal_strlit("\n");
            assert("\x03"@ =~= seq!['\x03']);
            assert("\n"@ =~= seq!['\n']);
        }
        if key_is(b, "escape", false) || key_is(b, "esc", false) || str_eq(data, "\x03") {
            self.cancelled = true;
            return InputResult::Consumed;
        }
        if key_is(b, "enter", false) || key_is(b, "return", false) || str_eq(data, "\n") {
            return match self.selected_value() {
                Some(v) => InputResult::Submit(String::from_str(v)),
                None => InputResult::Consumed,
            };
        }
        if key_is(b, "up", false) || key_is(b, "down", false) {
            let _ = self.list.handle_input(data);
            return InputResult::Consumed;
        }
        if key_is(b, "tab", false) || key_is(b, "shift+tab", false) {
            self.switch_tab(data);
            return InputResult::Consumed;
        }
        self.edit_search(data);
        InputResult::Consumed
    }

    /// Move to the next or previous tab and filter again.
    fn switch_tab(&mut self, data: &str)
        requires
            old(self).inv(),
            is_key(encode_utf8(data@), "tab"@, false) || is_key(encode_utf8(data@), "shift+tab"@, false),
        ensures
            final(self).inv(),
            tab_switched(old(self)@, final(self)@, data@),
    {
        let ghost v = self@;
        let _ = self.tab_bar.handle_input(data);
        let ghost mid = self@;
        proof {
            reveal(is_key);
            let n = v.tabs.len() as int;
            if n > 0 {
                vstd::arithmetic::div_mod::lemma_mod_pos_bound(v.active + 1, n);
                vstd::arithmetic::div_mod::lemma_mod_pos_bound(v.active + n - 1, n);
            }
            assert(mid == (FilterableView { active: mid.active, ..v }));
        }
        self.apply_filter();
    }

    /// Pass `data` to the search and filter again when it changed.
    fn edit_search(&mut self, data: &str)
        requires
            old(self).inv(),
        ensures
            final(self).inv(),
            search_edited(old(self)@, final(self)@, data@),
    {
        proof {
            reveal_strlit("\x7f");
            assert("\x7f"@ =~= seq!['\x7f']);
        }
        let b = data.as_bytes();
        let was_empty = crate::strs::byte_length(self.search.value()) == 0;
        let is_backspace = key_is(b, "backspace", false) || str_eq(data, "\x7f");
        if is_backspace {
            let _ = self.search.handle_input(data);
            self.apply_filter();
            return;
        }
        let (result, _event) = self.search.handle_input(data);
        match result {
            InputResult::Consumed => {
                if was_empty && crate::strs::byte_length(self.search.value()) > 0 {
                    let _ = self.tab_bar.set_active_index(0);
                }
                self.apply_filter();
            },
            _ => {},
        }
    }

    /// Filter the items again for the active tab and the search.
    fn apply_filter(&mut self)
        requires
            old(self).inv(),
        ensures
            final(self).inv(),
            refiltered(old(self)@, final(self)@),
    {
        let cands = self.tab_filtered();
        let query = self.search.value();
        if crate::strs::byte_length(query) == 0 {
            let shown = select_items_at(&self.items, &cands);
            self.list = SelectList::new(shown, self.max_visible, SelectListTheme::plain());
            self.request = None;
        } else {
            let q = String::from_str(query);
            self.request = Some(FilterRequest { query: q, candidates: cands });
        }
    }
}

} // verus!
