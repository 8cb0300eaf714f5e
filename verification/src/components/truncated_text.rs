//! Single-line text that is cut to fit the width.

use vstd::prelude::*;
use vstd::string::*;

verus! {

/// Text of which only the first line shows, cut to fit the width.
pub struct TruncatedText {
    text: String,
    padding_x: usize,
    padding_y: usize,
}

impl TruncatedText {
    /// The text.
    pub closed spec fn content(&self) -> Seq<char> {
        self.text@
    }

    /// The (horizontal, vertical) padding.
    pub closed spec fn padding(&self) -> (nat, nat) {
        (self.padding_x as nat, self.padding_y as nat)
    }

    pub fn new(text: &str, padding_x: usize, padding_y: usize) -> (t: TruncatedText)
        ensures
            t.content() == text@,
            t.padding() == (padding_x as nat, padding_y as nat),
    {
        TruncatedText { text: String::from_str(text), padding_x, padding_y }
    }

    pub fn set_text(&mut self, text: &str)
        ensures
            final(self).content() == text@,
            final(self).padding() == old(self).padding(),
    {
        self.text = String::from_str(text);
    }
}

} // verus!
