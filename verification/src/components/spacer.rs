//! Spacer: a given number of empty lines.

use vstd::prelude::*;

verus! {

/// Renders `lines` empty lines.
#[derive(Debug, Clone)]
pub struct Spacer {
    lines: usize,
}

impl Spacer {
    /// The number of empty lines.
    pub closed spec fn count(&self) -> nat {
        self.lines as nat
    }

    pub fn new(lines: usize) -> (s: Spacer)
        ensures
            s.count() == lines,
    {
        Spacer { lines }
    }

    pub fn set_lines(&mut self, lines: usize)
        ensures
            final(self).count() == lines,
    {
        self.lines = lines;
    }

    /// The lines shown, whatever the width: that many empty lines.
    pub fn render(&self, width: u16) -> (r: Vec<String>)
        ensures
            r@.len() == self.count(),
            forall|i: int| 0 <= i < r@.len() ==> (#[trigger] r@[i])@.len() == 0,
    {
        let mut r: Vec<String> = Vec::new();
        let mut i: usize = 0;
        while i < self.lines
            invariant
                i <= self.lines,
                r@.len() == i,
                forall|j: int| 0 <= j < r@.len() ==> (#[trigger] r@[j])@.len() == 0,
            decreases self.lines - i,
        {
            r.push(String::new());
            i = i + 1;
        }
        r
    }
}

impl Default for Spacer {
    fn default() -> (s: Spacer)
        ensures
            s.count() == 1,
    {
        Spacer::new(1)
    }
}

} // verus!
