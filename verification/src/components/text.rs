//! Multi-line text with padding and an optional background style.

use vstd::prelude::*;
use vstd::string::*;

use crate::style::Style;

verus! {

/// `n` spaces.
pub open spec fn spaces(n: nat) -> Seq<char> {
    Seq::new(n, |i: int| ' ')
}

/// A string of `n` spaces.
pub fn make_padding(n: usize) -> (s: String)
    ensures
        s@ == spaces(n as nat),
{
    let mut s = String::new();
    let mut i: usize = 0;
    while i < n
        invariant
            i <= n,
            s@ == spaces(i as nat),
        decreases n - i,
    {
        s.push(' ');
        i = i + 1;
        assert(s@ =~= spaces(i as nat));
    }
    s
}

/// Text shown with horizontal and vertical padding.
pub struct Text {
    content: String,
    padding_x: usize,
    padding_y: usize,
    custom_bg: Option<Style>,
}

impl Text {
    /// The text.
    pub closed spec fn content(&self) -> Seq<char> {
        self.content@
    }

    /// The (horizontal, vertical) padding.
    pub closed spec fn padding(&self) -> (nat, nat) {
        (self.padding_x as nat, self.padding_y as nat)
    }

    /// The background style, if any.
    pub closed spec fn background(&self) -> Option<Style> {
        self.custom_bg
    }

    pub fn new(text: &str, padding_x: usize, padding_y: usize) -> (t: Text)
        ensures
            t.content() == text@,
            t.padding() == (padding_x as nat, padding_y as nat),
            t.background() is None,
    {
        Text { content: String::from_str(text), padding_x, padding_y, custom_bg: None }
    }

    /// Text whose padded lines are styled with `bg`.
    pub fn with_bg(text: &str, padding_x: usize, padding_y: usize, bg: Style) -> (t: Text)
        ensures
            t.content() == text@,
            t.padding() == (padding_x as nat, padding_y as nat),
            t.background() == Some(bg),
    {
        Text { content: String::from_str(text), padding_x, padding_y, custom_bg: Some(bg) }
    }

    pub fn text(&self) -> (r: &str)
        ensures
            r@ == self.content(),
    {
        self.content.as_str()
    }

    pub fn set_text(&mut self, text: &str)
        ensures
            final(self).content() == text@,
            final(self).padding() == old(self).padding(),
            final(self).background() == old(self).background(),
    {
        self.content = String::from_str(text);
    }

    pub fn set_custom_bg_fn(&mut self, bg: Option<Style>)
        ensures
            final(self).background() == bg,
            final(self).content() == old(self).content(),
            final(self).padding() == old(self).padding(),
    {
        self.custom_bg = bg;
    }
}

impl Default for Text {
    fn default() -> (t: Text)
        ensures
            t.content().len() == 0,
            t.padding() == (1nat, 1nat),
            t.background() is None,
    {
        proof {
            reveal_strlit("");
        }
        Text::new("", 1, 1)
    }
}

} // verus!
