//! Tab bar: a label, then the tabs side by side with the active one
//! highlighted, then a hint; Tab or Right moves to the next tab, Shift+Tab
//! or Left to the previous one, wrapping around.

use vstd::prelude::*;
use vstd::string::*;

use crate::component::InputResult;
use crate::keys::match_key::{matches_key, matches_key_spec};
use crate::style::Style;

verus! {

/// A tab: an identifier and the label shown.
#[derive(Debug, Clone)]
pub struct Tab {
    pub id: String,
    pub label: String,
}

impl Tab {
    pub fn new(id: &str, label: &str) -> (t: Tab)
        ensures
            t.id@ == id@,
            t.label@ == label@,
    {
        Tab { id: String::from_str(id), label: String::from_str(label) }
    }
}

/// Styles of the parts of a tab bar.
#[derive(Debug, Clone)]
pub struct TabBarTheme {
    /// The label before the tabs (such as `Settings:`).
    pub label: Style,
    /// The active tab.
    pub active_tab: Style,
    /// The other tabs.
    pub inactive_tab: Style,
    /// The hint after the tabs.
    pub hint: Style,
}

impl TabBarTheme {
    /// A theme that leaves all text unstyled.
    pub fn plain() -> (t: TabBarTheme)
        ensures
            t.label.prefix@.len() == 0 && t.label.suffix@.len() == 0,
            t.active_tab.prefix@.len() == 0 && t.active_tab.suffix@.len() == 0,
            t.inactive_tab.prefix@.len() == 0 && t.inactive_tab.suffix@.len() == 0,
            t.hint.prefix@.len() == 0 && t.hint.suffix@.len() == 0,
    {
        TabBarTheme {
            label: Style::plain(),
            active_tab: Style::plain(),
            inactive_tab: Style::plain(),
            hint: Style::plain(),
        }
    }
}

/// Horizontal tab bar.
pub struct TabBar {
    tabs: Vec<Tab>,
    active_index: usize,
    theme: TabBarTheme,
    label: String,
}

/// The index `index` clamped to a list of `n` tabs (0 when there are none).
pub open spec fn clamp_index(index: int, n: int) -> int {
    if n == 0 {
        0
    } else if index < n - 1 {
        index
    } else {
        n - 1
    }
}

impl TabBar {
    /// The active index names a tab (or is 0 when there are none).
    #[verifier::type_invariant]
    spec fn active_in_range(self) -> bool {
        self.active_index == 0 || self.active_index < self.tabs@.len()
    }

    /// The tabs.
    pub closed spec fn tabs_view(&self) -> Seq<Tab> {
        self.tabs@
    }

    /// The index of the active tab.
    pub closed spec fn active(&self) -> int {
        self.active_index as int
    }

    /// The label shown before the tabs.
    pub closed spec fn label_view(&self) -> Seq<char> {
        self.label@
    }

    /// The styles of the bar.
    pub closed spec fn theme_view(&self) -> TabBarTheme {
        self.theme
    }

    /// A tab bar whose first tab is active.
    pub fn new(label: &str, tabs: Vec<Tab>, theme: TabBarTheme) -> (b: TabBar)
        ensures
            b.tabs_view() == tabs@,
            b.active() == 0,
            b.label_view() == label@,
            b.theme_view() == theme,
    {
        TabBar { tabs, active_index: 0, theme, label: String::from_str(label) }
    }

    /// A tab bar whose active tab is `initial_index`, clamped to the tabs.
    pub fn with_initial_index(label: &str, tabs: Vec<Tab>, theme: TabBarTheme, initial_index: usize) -> (b: TabBar)
        ensures
            b.tabs_view() == tabs@,
            b.active() == clamp_index(initial_index as int, tabs@.len() as int),
            b.label_view() == label@,
            b.theme_view() == theme,
    {
        let n = tabs.len();
        let last = if n > 0 {
            n - 1
        } else {
            0
        };
        let active_index = if initial_index < last {
            initial_index
        } else {
            last
        };
        TabBar { tabs, active_index, theme, label: String::from_str(label) }
    }

    /// The active tab, if the index names one.
    pub fn active_tab(&self) -> (r: Option<&Tab>)
        ensures
            0 <= self.active() < self.tabs_view().len() ==> r == Some(&self.tabs_view()[self.active()]),
            !(0 <= self.active() < self.tabs_view().len()) ==> r is None,
    {
        if self.active_index < self.tabs.len() {
            Some(&self.tabs[self.active_index])
        } else {
            None
        }
    }

    /// The index of the active tab: a tab's index, or 0 when there are none.
    pub fn active_index(&self) -> (r: usize)
        ensures
            r == self.active(),
            self.tabs_view().len() == 0 ==> r == 0,
            self.tabs_view().len() > 0 ==> r < self.tabs_view().len(),
    {
        proof {
            use_type_invariant(self);
        }
        self.active_index
    }

    /// Make tab `index` (clamped to the tabs) active; nothing happens when
    /// there are no tabs. Whether the active tab changed.
    pub fn set_active_index(&mut self, index: usize) -> (changed: bool)
        ensures
            final(self).tabs_view() == old(self).tabs_view(),
            final(self).label_view() == old(self).label_view(),
            final(self).theme_view() == old(self).theme_view(),
            old(self).tabs_view().len() == 0 ==> final(self).active() == old(self).active(),
            old(self).tabs_view().len() > 0 ==> final(self).active() == clamp_index(
                index as int,
                old(self).tabs_view().len() as int,
            ),
            changed == (final(self).active() != old(self).active()),
    {
        if self.tabs.len() == 0 {
            return false;
        }
        let last = self.tabs.len() - 1;
        let new_index = if index < last {
            index
        } else {
            last
        };
        if new_index != self.active_index {
            self.active_index = new_index;
            true
        } else {
            false
        }
    }

    /// Move to the next tab, wrapping from the last to the first. Whether
    /// the active tab changed.
    pub fn next_tab(&mut self) -> (changed: bool)
        ensures
            final(self).tabs_view() == old(self).tabs_view(),
            final(self).label_view() == old(self).label_view(),
            final(self).theme_view() == old(self).theme_view(),
            old(self).tabs_view().len() == 0 ==> final(self).active() == old(self).active(),
            old(self).tabs_view().len() > 0 ==> final(self).active() == (old(self).active() + 1)
                % (old(self).tabs_view().len() as int),
            changed == (final(self).active() != old(self).active()),
    {
        proof {
            use_type_invariant(&*self);
        }
        if self.tabs.len() == 0 {
            return false;
        }
        let next = (self.active_index + 1) % self.tabs.len();
        self.set_active_index(next)
    }

    /// Move to the previous tab, wrapping from the first to the last.
    /// Whether the active tab changed.
    pub fn prev_tab(&mut self) -> (changed: bool)
        ensures
            final(self).tabs_view() == old(self).tabs_view(),
            final(self).label_view() == old(self).label_view(),
            final(self).theme_view() == old(self).theme_view(),
            old(self).tabs_view().len() == 0 ==> final(self).active() == old(self).active(),
            old(self).tabs_view().len() > 0 ==> final(self).active() == (old(self).active()
                + old(self).tabs_view().len() - 1) % (old(self).tabs_view().len() as int),
            changed == (final(self).active() != old(self).active()),
    {
        proof {
            use_type_invariant(&*self);
        }
        if self.tabs.len() == 0 {
            return false;
        }
        let n = self.tabs.len();
        let a = self.active_index;
        let prev = if a == 0 {
            n - 1
        } else {
            a - 1
        };
        proof {
            if a == 0 {
                vstd::arithmetic::div_mod::lemma_fundamental_div_mod_converse(a + n - 1, n as int, 0, n - 1);
            } else {
                vstd::arithmetic::div_mod::lemma_fundamental_div_mod_converse(a + n - 1, n as int, 1, a - 1);
            }
        }
        self.set_active_index(prev)
    }

    /// The bar as one line before wrapping: the styled `label:`, two spaces,
    /// each tab's label padded with a space on each side (styled as active or
    /// inactive) separated by two spaces, two spaces and the styled hint.
    pub fn render_text(&self) -> (r: String)
        ensures
            r@ == tab_bar_text(self.theme_view(), self.label_view(), self.tabs_view(), self.active()),
    {
        let mut s = String::new();
        let mut head = String::from_str(self.label.as_str());
        head.push(':');
        s.append(self.theme.label.apply(head.as_str()).as_str());
        s.push(' ');
        s.push(' ');
        let ghost s0 = s@;
        let n = self.tabs.len();
        let mut i: usize = 0;
        while i < n
            invariant
                n == self.tabs@.len(),
                i <= n,
                s@ == s0 + tabs_text(self.theme, self.tabs@, self.active_index as int, 0, i as int),
            decreases n - i,
        {
            let mut padded = String::new();
            padded.push(' ');
            padded.append(self.tabs[i].label.as_str());
            padded.push(' ');
            let ghost before = s@;
            if i == self.active_index {
                s.append(self.theme.active_tab.apply(padded.as_str()).as_str());
            } else {
                s.append(self.theme.inactive_tab.apply(padded.as_str()).as_str());
            }
            if i < n - 1 {
                s.push(' ');
                s.push(' ');
            }
            proof {
                lemma_tabs_text_step(self.theme, self.tabs@, self.active_index as int, 0, i as int);
                assert(s@ =~= before + tab_piece(self.theme, self.tabs@, self.active_index as int, i as int));
            }
            i = i + 1;
        }
        s.push(' ');
        s.push(' ');
        let hint = self.theme.hint.apply("(tab to cycle)");
        s.append(hint.as_str());
        assert(s@ =~= tab_bar_text(self.theme, self.label@, self.tabs@, self.active_index as int));
        s
    }

    /// Handle a key: Tab or Right moves to the next tab, Shift+Tab or Left
    /// to the previous one; other input is ignored.
    pub fn handle_input(&mut self, data: &str) -> (r: InputResult)
        ensures
            final(self).tabs_view() == old(self).tabs_view(),
            final(self).label_view() == old(self).label_view(),
            final(self).theme_view() == old(self).theme_view(),
            old(self).tabs_view().len() == 0 ==> final(self).active() == old(self).active(),
            ({
                let b = encode_bytes(data@);
                let n = old(self).tabs_view().len() as int;
                if matches_key_spec(b, "tab"@, false) || matches_key_spec(b, "right"@, false) {
                    r == InputResult::Consumed && (n > 0 ==> final(self).active() == (old(self).active() + 1) % n)
                } else if matches_key_spec(b, "shift+tab"@, false) || matches_key_spec(
                    b,
                    "left"@,
                    false,
                ) {
                    r == InputResult::Consumed && (n > 0 ==> final(self).active() == (old(self).active() + n - 1) % n)
                } else {
                    r == InputResult::Ignored && final(self).active() == old(self).active()
                }
            }),
    {
        let bytes = data.as_bytes();
        if matches_key(bytes, "tab", false) || matches_key(bytes, "right", false) {
            self.next_tab();
            return InputResult::Consumed;
        }
        if matches_key(bytes, "shift+tab", false) || matches_key(bytes, "left", false) {
            self.prev_tab();
            return InputResult::Consumed;
        }
        InputResult::Ignored
    }
}

/// The UTF-8 bytes of `s`.
pub open spec fn encode_bytes(s: Seq<char>) -> Seq<u8> {
    vstd::utf8::encode_utf8(s)
}

/// Tab `i` as shown: its padded label in its style, and two spaces unless it
/// is the last.
pub open spec fn tab_piece(theme: TabBarTheme, tabs: Seq<Tab>, active: int, i: int) -> Seq<char> {
    let padded = seq![' '] + tabs[i].label@ + seq![' '];
    (if i == active {
        theme.active_tab.styled(padded)
    } else {
        theme.inactive_tab.styled(padded)
    }) + if i < tabs.len() - 1 {
        seq![' ', ' ']
    } else {
        Seq::empty()
    }
}

/// Tabs `from` to `to` as shown.
pub open spec fn tabs_text(theme: TabBarTheme, tabs: Seq<Tab>, active: int, from: int, to: int) -> Seq<char>
    decreases to - from,
{
    if to <= from {
        Seq::empty()
    } else {
        tabs_text(theme, tabs, active, from, to - 1) + tab_piece(theme, tabs, active, to - 1)
    }
}

proof fn lemma_tabs_text_step(theme: TabBarTheme, tabs: Seq<Tab>, active: int, from: int, i: int)
    requires
        from <= i,
    ensures
        tabs_text(theme, tabs, active, from, i + 1) == tabs_text(theme, tabs, active, from, i)
            + tab_piece(theme, tabs, active, i),
{
}

/// The whole bar as one line.
pub open spec fn tab_bar_text(theme: TabBarTheme, label: Seq<char>, tabs: Seq<Tab>, active: int) -> Seq<char> {
    theme.label.styled(label + seq![':']) + seq![' ', ' '] + tabs_text(theme, tabs, active, 0, tabs.len() as int)
        + seq![' ', ' '] + theme.hint.styled("(tab to cycle)"@)
}

/// Moving to the next tab and back to the previous one returns to the
/// tab one started on.
pub proof fn law_next_then_prev(active: int, n: int)
    requires
        0 <= active < n,
    ensures
        ((active + 1) % n + n - 1) % n == active,
{
    if active + 1 < n {
        assert((active + 1) % n == active + 1) by (nonlinear_arith)
            requires
                0 <= active + 1 < n,
        ;
        assert((active + n) % n == active) by (nonlinear_arith)
            requires
                0 <= active < n,
        ;
    } else {
        assert((active + 1) % n == 0) by (nonlinear_arith)
            requires
                active + 1 == n,
                n > 0,
        ;
        assert((n - 1) % n == n - 1) by (nonlinear_arith)
            requires
                n > 0,
        ;
    }
}

} // verus!
