//! Prompt history for the editor: up/down navigation, deduplication of
//! consecutive entries and a size limit.

use vstd::prelude::*;

use crate::strs::{str_eq, trim, trim_string};

verus! {

/// Maximum number of history entries kept by `add`.
pub const MAX_HISTORY: usize = 100;

/// Abstract history: entries (most recent first) and the browsing index.
pub struct HistoryView {
    pub entries: Seq<Seq<char>>,
    pub index: Option<int>,
}

/// Prompt history manager.
pub struct History {
    entries: Vec<String>,
    index: Option<usize>,
}

pub open spec fn opt_int(o: Option<usize>) -> Option<int> {
    match o {
        Some(i) => Some(i as int),
        None => None,
    }
}

/// The entries after adding `text`.
pub open spec fn added(entries: Seq<Seq<char>>, text: Seq<char>) -> Seq<Seq<char>> {
    let t = trim(text);
    if t.len() == 0 || (entries.len() > 0 && entries[0] == t) {
        entries
    } else if entries.len() + 1 > MAX_HISTORY {
        (seq![t] + entries).drop_last()
    } else {
        seq![t] + entries
    }
}

/// The browsing index that a navigation step targets (-1: not browsing).
pub open spec fn nav_target(index: Option<int>, direction: i32) -> int {
    (match index {
        Some(i) => i,
        None => -1,
    }) - direction
}

impl View for History {
    type V = HistoryView;

    closed spec fn view(&self) -> HistoryView {
        HistoryView {
            entries: self.entries@.map_values(|s: String| s@),
            index: opt_int(self.index),
        }
    }
}

impl History {
    /// The entries, most recent first.
    pub fn entries(&self) -> (r: &[String])
        ensures
            r@.map_values(|s: String| s@) == self@.entries,
    {
        self.entries.as_slice()
    }

    pub fn new() -> (r: Self)
        ensures
            r@.entries.len() == 0,
            r@.index is None,
    {
        History { entries: Vec::new(), index: None }
    }

    /// Load initial history from external storage.
    pub fn load(&mut self, entries: Vec<String>)
        ensures
            final(self)@.entries == entries@.map_values(|s: String| s@),
            final(self)@.index is None,
    {
        self.entries = entries;
        self.index = None;
    }

    /// Add a prompt (most recent first): trims white space, skips empty
    /// text and a repeat of the most recent entry, and keeps at most
    /// `MAX_HISTORY` entries.
    pub fn add(&mut self, text: &str)
        ensures
            final(self)@.entries == added(old(self)@.entries, text@),
            final(self)@.index == old(self)@.index,
    {
        let trimmed = trim_string(text);
        if trimmed.as_str().unicode_len() == 0 {
            return;
        }
        if self.entries.len() > 0 && str_eq(self.entries[0].as_str(), trimmed.as_str()) {
            return;
        }
        let ghost old_v = self@.entries;
        self.entries.insert(0, trimmed);
        assert(self@.entries =~= seq![trim(text@)] + old_v);
        if self.entries.len() > MAX_HISTORY {
            self.entries.pop();
            assert(self@.entries =~= (seq![trim(text@)] + old_v).drop_last());
        }
    }

    /// Whether history is being browsed.
    pub fn is_browsing(&self) -> (b: bool)
        ensures
            b == (self@.index is Some),
    {
        self.index.is_some()
    }

    /// The entry being browsed, if any.
    pub fn current_entry(&self) -> (r: Option<&str>)
        ensures
            match self@.index {
                Some(i) => if 0 <= i < self@.entries.len() {
                    r matches Some(s) && s@ == self@.entries[i]
                } else {
                    r is None
                },
                None => r is None,
            },
    {
        match self.index {
            Some(i) => if i < self.entries.len() {
                Some(self.entries[i].as_str())
            } else {
                None
            },
            None => None,
        }
    }

    /// Stop browsing.
    pub fn reset(&mut self)
        ensures
            final(self)@.entries == old(self)@.entries,
            final(self)@.index is None,
    {
        self.index = None;
    }

    /// Navigate: `direction` -1 goes to an older entry (up), +1 to a newer
    /// one (down). `Ok(Some(text))` shows an entry, `Ok(None)` leaves the
    /// history, `Err(())` is a no-op at either end or on empty history.
    pub fn navigate(&mut self, direction: i32) -> (r: Result<Option<String>, ()>)
        ensures
            final(self)@.entries == old(self)@.entries,
            ({
                let t = nav_target(old(self)@.index, direction);
                if old(self)@.entries.len() == 0 || t < -1 || t >= old(self)@.entries.len() {
                    r is Err && final(self)@.index == old(self)@.index
                } else if t == -1 {
                    r == Ok::<Option<String>, ()>(None) && final(self)@.index is None
                } else {
                    r matches Ok(Some(s)) && s@ == old(self)@.entries[t] && final(self)@.index
                        == Some(t)
                }
            }),
    {
        if self.entries.len() == 0 {
            return Err(());
        }
        let current: i128 = match self.index {
            Some(i) => i as i128,
            None => -1,
        };
        let new_index: i128 = current - direction as i128;
        if new_index < -1 || new_index >= self.entries.len() as i128 {
            return Err(());
        }
        if new_index == -1 {
            self.index = None;
            Ok(None)
        } else {
            let idx = new_index as usize;
            self.index = Some(idx);
            Ok(Some(self.entries[idx].clone()))
        }
    }
}

/// Adding a prompt with text makes it the first entry that browsing up
/// shows.
pub proof fn law_add_then_browse_up(entries: Seq<Seq<char>>, text: Seq<char>)
    requires
        trim(text).len() > 0,
    ensures
        added(entries, text).len() > 0,
        added(entries, text)[0] == trim(text),
        nav_target(None, -1i32) == 0,
{
}

/// Going up then down returns to the entry (or the draft) browsing was on.
pub proof fn law_up_then_down(index: Option<int>)
    ensures
        nav_target(
            if nav_target(index, -1i32) == -1 {
                None
            } else {
                Some(nav_target(index, -1i32))
            },
            1i32,
        ) == match index {
            Some(i) => i,
            None => -1,
        },
{
}

/// Adding to a history within its limit keeps it within the limit: an
/// added text goes first and the list is cut to its first `MAX_HISTORY`
/// entries.
pub proof fn law_history_bounded(entries: Seq<Seq<char>>, text: Seq<char>)
    requires
        entries.len() <= MAX_HISTORY,
    ensures
        added(entries, text).len() <= MAX_HISTORY,
        trim(text).len() > 0 && !(entries.len() > 0 && entries[0] == trim(text)) ==> added(entries, text) == (
        seq![trim(text)] + entries).take(
            if entries.len() + 1 > MAX_HISTORY {
                MAX_HISTORY as int
            } else {
                entries.len() + 1int
            },
        ),
{
    let t = trim(text);
    if t.len() > 0 && !(entries.len() > 0 && entries[0] == t) {
        if entries.len() + 1 > MAX_HISTORY {
            assert((seq![t] + entries).drop_last() =~= (seq![t] + entries).take(MAX_HISTORY as int));
        } else {
            assert(seq![t] + entries =~= (seq![t] + entries).take(entries.len() + 1int));
        }
    }
}

} // verus!
