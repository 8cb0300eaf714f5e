//! Text styles as data: a style wraps text between a prefix and a suffix
//! (escape sequences that switch an attribute on and back off).

use vstd::prelude::*;
use vstd::string::*;

verus! {

/// A text style: styled text is `prefix`, the text, then `suffix`.
#[derive(Debug, Clone)]
pub struct Style {
    pub prefix: String,
    pub suffix: String,
}

impl Style {
    /// The style that leaves text unchanged.
    pub fn plain() -> (s: Style)
        ensures
            s.prefix@.len() == 0,
            s.suffix@.len() == 0,
    {
        Style { prefix: String::new(), suffix: String::new() }
    }

    /// A style with the given prefix and suffix.
    pub fn new(prefix: &str, suffix: &str) -> (s: Style)
        ensures
            s.prefix@ == prefix@,
            s.suffix@ == suffix@,
    {
        Style { prefix: String::from_str(prefix), suffix: String::from_str(suffix) }
    }

    /// What this style makes of `text`.
    pub open spec fn styled(self, text: Seq<char>) -> Seq<char> {
        self.prefix@ + text + self.suffix@
    }

    /// `text` in this style.
    pub fn apply(&self, text: &str) -> (r: String)
        ensures
            r@ == self.styled(text@),
    {
        let mut r = String::from_str(self.prefix.as_str());
        r.append(text);
        r.append(self.suffix.as_str());
        r
    }
}

} // verus!
