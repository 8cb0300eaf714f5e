//! What components share: the component interface, the cursor marker, the
//! outcome of handling input, and a container of components.

use vstd::prelude::*;

verus! {

/// Cursor position marker: an APC sequence that terminals ignore. A focused
/// component emits it where the cursor is; the renderer strips it and puts
/// the hardware cursor there.
pub const CURSOR_MARKER: &'static str = "\x1b_pi:c\x07";

/// Result of input handling.
#[derive(Debug, Clone, PartialEq, Eq)]
pub enum InputResult {
    /// The component consumed the input.
    Consumed,
    /// The component did not handle the input; it goes to the next handler.
    Ignored,
    /// The component submitted text (such as the editor on Enter).
    Submit(String),
}

/// A UI component, implemented by the users of the library: it renders to
/// lines for a width and may take input while it has the focus.
pub trait Component {
    /// The lines of the component at `width` columns.
    fn render(&mut self, width: u16) -> Vec<String>;

    /// Handle input while focused; by default the input is not handled.
    fn handle_input(&mut self, data: &str) -> InputResult {
        InputResult::Ignored
    }

    /// Whether the component also wants key-release events.
    fn wants_key_release(&self) -> bool {
        false
    }

    /// Drop any cached rendering.
    fn invalidate(&mut self) {
    }
}

/// A component that can hold the focus (and then shows the cursor).
pub trait Focusable: Component {
    fn set_focused(&mut self, focused: bool);

    fn is_focused(&self) -> bool;
}

/// The lines of `outs`, one part after another.
pub open spec fn flatten_lines(outs: Seq<Seq<String>>) -> Seq<String>
    decreases outs.len(),
{
    if outs.len() == 0 {
        Seq::empty()
    } else {
        flatten_lines(outs.drop_last()) + outs.last()
    }
}

/// A component made of other components, rendered one below the other.
pub struct Container {
    children: Vec<Box<dyn Component>>,
}

impl View for Container {
    type V = Seq<Box<dyn Component>>;

    closed spec fn view(&self) -> Seq<Box<dyn Component>> {
        self.children@
    }
}

impl Container {
    /// An empty container.
    pub fn new() -> (r: Self)
        ensures
            r@.len() == 0,
    {
        Container { children: Vec::new() }
    }

    /// Add `component` below the others.
    pub fn add_child(&mut self, component: Box<dyn Component>)
        ensures
            final(self)@ == old(self)@.push(component),
    {
        self.children.push(component);
    }

    /// Remove the child at `index` (nothing when there is none).
    pub fn remove_child(&mut self, index: usize)
        ensures
            index < old(self)@.len() ==> final(self)@ == old(self)@.remove(index as int),
            index >= old(self)@.len() ==> final(self)@ == old(self)@,
    {
        if index < self.children.len() {
            self.children.remove(index);
        }
    }

    /// Remove every child.
    pub fn clear(&mut self)
        ensures
            final(self)@.len() == 0,
    {
        self.children.clear();
    }

    /// The children, top first.
    pub fn children(&self) -> (r: &[Box<dyn Component>])
        ensures
            r@ == self@,
    {
        self.children.as_slice()
    }
}

impl Default for Container {
    fn default() -> (r: Self)
        ensures
            r@.len() == 0,
    {
        Container::new()
    }
}

impl Component for Container {
    /// The children's lines, top child first: the lines each child
    /// renders at `width`, one child after another (the children, which
    /// may change as they render, stay as many and in their places).
    fn render(&mut self, width: u16) -> (r: Vec<String>)
        ensures
            final(self)@.len() == old(self)@.len(),
            exists|outs: Seq<Seq<String>>| outs.len() == old(self)@.len() && #[trigger] flatten_lines(outs) == r@,
    {
        let mut lines: Vec<String> = Vec::new();
        let n = self.children.len();
        let mut i: usize = 0;
        let ghost mut outs: Seq<Seq<String>> = Seq::empty();
        while i < n
            invariant
                n == self.children@.len(),
                i <= n,
                outs.len() == i,
                lines@ == flatten_lines(outs),
            decreases n - i,
        {
            let mut child_lines = self.children[i].render(width);
            proof {
                let outs2 = outs.push(child_lines@);
                assert(outs2.drop_last() =~= outs);
                outs = outs2;
            }
            lines.append(&mut child_lines);
            i = i + 1;
        }
        lines
    }

    /// Drop every child's cached rendering.
    fn invalidate(&mut self) {
        let n = self.children.len();
        let mut i: usize = 0;
        while i < n
            invariant
                n == self.children@.len(),
                i <= n,
            decreases n - i,
        {
            self.children[i].invalidate();
            i = i + 1;
        }
    }
}

} // verus!
