//! Settings list: settings with a selection that Up and Down move
//! (wrapping); Enter or Space cycles the selected setting through its
//! values.

use vstd::prelude::*;
use vstd::string::*;

use crate::component::InputResult;
use crate::keys::match_key::{is_key, key_is};
use crate::strs::str_eq;
use crate::style::Style;

verus! {

/// One setting.
#[derive(Debug, Clone)]
pub struct SettingItem {
    pub id: String,
    pub label: String,
    pub description: Option<String>,
    pub current_value: String,
    /// The values that Enter or Space cycles through, if any.
    pub values: Option<Vec<String>>,
}

impl SettingItem {
    pub fn new(id: &str, label: &str, current_value: &str) -> (r: SettingItem)
        ensures
            r.id@ == id@,
            r.label@ == label@,
            r.current_value@ == current_value@,
            r.description is None,
            r.values is None,
    {
        SettingItem {
            id: String::from_str(id),
            label: String::from_str(label),
            description: None,
            current_value: String::from_str(current_value),
            values: None,
        }
    }

    /// The setting with values to cycle through.
    pub fn with_values(self, values: Vec<String>) -> (r: SettingItem)
        ensures
            r.id == self.id && r.label == self.label && r.description == self.description,
            r.current_value == self.current_value,
            r.values == Some(values),
    {
        let mut r = self;
        r.values = Some(values);
        r
    }

    /// The setting with a description.
    pub fn with_description(self, desc: &str) -> (r: SettingItem)
        ensures
            r.id == self.id && r.label == self.label && r.values == self.values,
            r.current_value == self.current_value,
            r.description matches Some(d) && d@ == desc@,
    {
        let mut r = self;
        r.description = Some(String::from_str(desc));
        r
    }
}

/// A style that depends on whether its item is selected.
#[derive(Debug, Clone)]
pub struct SelectableStyle {
    pub normal: Style,
    pub selected: Style,
}

/// Styles of a settings list.
#[derive(Debug, Clone)]
pub struct SettingsListTheme {
    pub label: SelectableStyle,
    pub value: SelectableStyle,
    pub description: Style,
    pub cursor: String,
    pub hint: Style,
}

/// What handling a key did to a settings list, beyond consuming it.
#[derive(Debug, Clone, PartialEq, Eq)]
pub enum SettingsEvent {
    /// Nothing to report.
    Nothing,
    /// The setting with this id took this value.
    Changed(String, String),
    /// The list was dismissed.
    Cancelled,
}

/// The position of the first `v` in `values`, if any.
pub open spec fn first_index(values: Seq<Seq<char>>, v: Seq<char>, i: int) -> Option<int>
    decreases values.len() - i,
{
    if i < 0 || i >= values.len() {
        None
    } else if values[i] == v {
        Some(i)
    } else {
        first_index(values, v, i + 1)
    }
}

/// The value after `current` in the cycle `values` (from the first value
/// when `current` is not among them).
pub open spec fn next_value(values: Seq<Seq<char>>, current: Seq<char>) -> Seq<char> {
    let i = match first_index(values, current, 0) {
        Some(k) => k,
        None => 0,
    };
    values[(i + 1) % (values.len() as int)]
}

proof fn lemma_first_index_range(values: Seq<Seq<char>>, v: Seq<char>, i: int)
    ensures
        first_index(values, v, i) matches Some(k) ==> 0 <= k < values.len() && values[k] == v,
    decreases values.len() - i,
{
    if 0 <= i < values.len() && values[i] != v {
        lemma_first_index_range(values, v, i + 1);
    }
}

/// The position of the first `v` in `values`, if any.
fn find_value(values: &Vec<String>, v: &str) -> (r: Option<usize>)
    ensures
        match r {
            Some(k) => first_index(crate::strs::string_views(values@), v@, 0) == Some(k as int),
            None => first_index(crate::strs::string_views(values@), v@, 0) is None,
        },
{
    let ghost vs = crate::strs::string_views(values@);
    let mut i: usize = 0;
    while i < values.len()
        invariant
            vs == crate::strs::string_views(values@),
            i <= values@.len(),
            first_index(vs, v@, 0) == first_index(vs, v@, i as int),
        decreases values@.len() - i,
    {
        if str_eq(values[i].as_str(), v) {
            return Some(i);
        }
        i = i + 1;
    }
    None
}

/// A list of settings.
pub struct SettingsList {
    items: Vec<SettingItem>,
    theme: SettingsListTheme,
    selected_index: usize,
    max_visible: usize,
}

impl SettingsList {
    /// The settings.
    pub closed spec fn items_view(&self) -> Seq<SettingItem> {
        self.items@
    }

    /// The index of the selected setting.
    pub closed spec fn selected(&self) -> int {
        self.selected_index as int
    }

    pub fn new(items: Vec<SettingItem>, max_visible: usize, theme: SettingsListTheme) -> (l: SettingsList)
        ensures
            l.items_view() == items@,
            l.selected() == 0,
    {
        SettingsList { items, theme, selected_index: 0, max_visible }
    }

    /// The settings.
    pub fn items(&self) -> (r: &[SettingItem])
        ensures
            r@ == self.items_view(),
    {
        self.items.as_slice()
    }

    /// The index of the selected setting.
    pub fn selected_index(&self) -> (r: usize)
        ensures
            r == self.selected(),
    {
        self.selected_index
    }

    /// Give the first setting with id `id` the value `new_value`; nothing
    /// happens when no setting has that id.
    pub fn update_value(&mut self, id: &str, new_value: &str)
        ensures
            final(self).selected() == old(self).selected(),
            final(self).items_view().len() == old(self).items_view().len(),
            forall|i: int|
                0 <= i < old(self).items_view().len() ==> {
                    let old_item = #[trigger] old(self).items_view()[i];
                    let new_item = final(self).items_view()[i];
                    &&& new_item.id == old_item.id
                    &&& new_item.label == old_item.label
                    &&& new_item.description == old_item.description
                    &&& new_item.values == old_item.values
                    &&& new_item.current_value@ == if old_item.id@ == id@ && forall|j: int|
                        0 <= j < i ==> (#[trigger] old(self).items_view()[j]).id@ != id@ {
                        new_value@
                    } else {
                        old_item.current_value@
                    }
                },
    {
        let n = self.items.len();
        let mut i: usize = 0;
        while i < n
            invariant
                n == self.items@.len(),
                i <= n,
                self.items@ == old(self).items@,
                self.selected_index == old(self).selected_index,
                forall|j: int| 0 <= j < i ==> (#[trigger] self.items@[j]).id@ != id@,
            decreases n - i,
        {
            if str_eq(self.items[i].id.as_str(), id) {
                self.items[i].current_value = String::from_str(new_value);
                return;
            }
            i = i + 1;
        }
    }

    /// Cycle the selected setting to its next value; the (id, value) it
    /// took, or `None` when it has no values to cycle through.
    fn activate_item(&mut self) -> (r: Option<(String, String)>)
        ensures
            final(self).selected() == old(self).selected(),
            final(self).items_view().len() == old(self).items_view().len(),
            ({
                let s = old(self).selected();
                let cycles = 0 <= s < old(self).items_view().len() && (old(self).items_view()[s].values matches Some(vs)
                    && vs@.len() > 0);
                if cycles {
                    let item = old(self).items_view()[s];
                    let nv = next_value(crate::strs::string_views(item.values.unwrap()@), item.current_value@);
                    &&& r matches Some((id, v)) && id@ == item.id@ && v@ == nv
                    &&& final(self).items_view() == old(self).items_view().update(
                        s,
                        SettingItem { current_value: final(self).items_view()[s].current_value, ..item },
                    )
                    &&& final(self).items_view()[s].current_value@ == nv
                } else {
                    r is None && final(self).items_view() == old(self).items_view()
                }
            }),
    {
        let s = self.selected_index;
        if s >= self.items.len() {
            return None;
        }
        let new_value = match &self.items[s].values {
            Some(values) => {
                if values.len() == 0 {
                    return None;
                }
                let ghost vs = crate::strs::string_views(values@);
                let idx = match find_value(values, self.items[s].current_value.as_str()) {
                    Some(k) => k,
                    None => 0,
                };
                proof {
                    lemma_first_index_range(vs, self.items@[s as int].current_value@, 0);
                }
                let next = (idx + 1) % values.len();
                values[next].clone()
            },
            None => {
                return None;
            },
        };
        let id = self.items[s].id.clone();
        self.items[s].current_value = new_value.clone();
        Some((id, new_value))
    }

    /// Handle a key: Up and Down move the selection (wrapping), Enter or
    /// Space cycles the selected setting, Escape or Ctrl+C dismisses the
    /// list.
    pub fn handle_input(&mut self, data: &str) -> (r: (InputResult, SettingsEvent))
        requires
            old(self).items_view().len() == 0 ==> !is_key(
                vstd::utf8::encode_utf8(data@),
                "up"@,
                false,
            ) && !is_key(vstd::utf8::encode_utf8(data@), "down"@, false),
        ensures
            ({
                let b = vstd::utf8::encode_utf8(data@);
                let total = old(self).items_view().len() as int;
                let sel = old(self).selected();
                if is_key(b, "up"@, false) {
                    r == (InputResult::Consumed, SettingsEvent::Nothing) && final(self).selected() == (
                    if sel == 0 {
                        total - 1
                    } else {
                        sel - 1
                    }) && final(self).items_view() == old(self).items_view()
                } else if is_key(b, "down"@, false) {
                    r == (InputResult::Consumed, SettingsEvent::Nothing) && final(self).selected() == (
                    if sel >= total - 1 {
                        0
                    } else {
                        sel + 1
                    }) && final(self).items_view() == old(self).items_view()
                } else if is_key(b, "enter"@, false) || is_key(b, "return"@, false) || data@ == "\n"@
                    || data@ == " "@ {
                    r.0 == InputResult::Consumed && final(self).selected() == sel && (r.1
                        matches SettingsEvent::Changed(id, v) ==> 0 <= sel < total && id@
                        == old(self).items_view()[sel].id@ && v@ == final(self).items_view()[sel].current_value@) && (r.1 == SettingsEvent::Nothing
                        ==> final(self).items_view() == old(self).items_view()) && !(r.1 is Cancelled)
                } else if is_key(b, "escape"@, false) || is_key(b, "esc"@, false) || is_key(
                    b,
                    "ctrl+c"@,
                    false,
                ) {
                    r == (InputResult::Consumed, SettingsEvent::Cancelled) && final(self).selected() == sel
                        && final(self).items_view() == old(self).items_view()
                } else {
                    r == (InputResult::Ignored, SettingsEvent::Nothing) && final(self).selected() == sel
                        && final(self).items_view() == old(self).items_view()
                }
            }),
    {
        let bytes = data.as_bytes();
        if key_is(bytes, "up", false) {
            let total = self.items.len();
            self.selected_index = if self.selected_index == 0 {
                total - 1
            } else {
                self.selected_index - 1
            };
            return (InputResult::Consumed, SettingsEvent::Nothing);
        }
        if key_is(bytes, "down", false) {
            let total = self.items.len();
            self.selected_index = if self.selected_index >= total - 1 {
                0
            } else {
                self.selected_index + 1
            };
            return (InputResult::Consumed, SettingsEvent::Nothing);
        }
        if key_is(bytes, "enter", false) || key_is(bytes, "return", false) || str_eq(data, "\n")
            || str_eq(data, " ") {
            let event = match self.activate_item() {
                Some((id, v)) => SettingsEvent::Changed(id, v),
                None => SettingsEvent::Nothing,
            };
            return (InputResult::Consumed, event);
        }
        if key_is(bytes, "escape", false) || key_is(bytes, "esc", false) || key_is(bytes, "ctrl+c", false) {
            return (InputResult::Consumed, SettingsEvent::Cancelled);
        }
        (InputResult::Ignored, SettingsEvent::Nothing)
    }
}

} // verus!
