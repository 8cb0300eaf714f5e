//! Emacs-style kill ring for cut/yank operations.
//!
//! Tracks killed (deleted) text entries. Consecutive kills can accumulate
//! into a single entry. Supports yank (the most recent entry) and yank-pop
//! (cycling through older entries).

use vstd::prelude::*;
use vstd::string::*;

verus! {

/// Ring of killed text entries; the most recent entry is the last one.
pub struct KillRing {
    ring: Vec<String>,
}

impl View for KillRing {
    type V = Seq<Seq<char>>;

    closed spec fn view(&self) -> Seq<Seq<char>> {
        self.ring@.map_values(|s: String| s@)
    }
}

/// The ring after moving its most recent entry to the front.
pub open spec fn rotated(s: Seq<Seq<char>>) -> Seq<Seq<char>> {
    if s.len() > 1 {
        seq![s.last()] + s.drop_last()
    } else {
        s
    }
}

/// The ring after a kill of `text`.
pub open spec fn pushed(s: Seq<Seq<char>>, text: Seq<char>, prepend: bool, accumulate: bool) -> Seq<
    Seq<char>,
> {
    if text.len() == 0 {
        s
    } else if accumulate && s.len() > 0 {
        s.update(
            s.len() - 1,
            if prepend {
                text + s.last()
            } else {
                s.last() + text
            },
        )
    } else {
        s.push(text)
    }
}

impl KillRing {
    pub fn new() -> (r: Self)
        ensures
            r@ == Seq::<Seq<char>>::empty(),
    {
        let r = KillRing { ring: Vec::new() };
        assert(r@ =~= Seq::<Seq<char>>::empty());
        r
    }

    /// Add text to the kill ring.
    ///
    /// With `accumulate`, the text is merged into the most recent entry:
    /// in front of it when `prepend` (backward deletion), after it otherwise.
    pub fn push(&mut self, text: &str, prepend: bool, accumulate: bool)
        ensures
            final(self)@ == pushed(old(self)@, text@, prepend, accumulate),
    {
        if text.is_empty() {
            return;
        }
        let n = self.ring.len();
        if accumulate && n > 0 {
            let last = self.ring.pop().unwrap();
            let merged = if prepend {
                let mut m = String::from_str(text);
                m.append(last.as_str());
                m
            } else {
                let mut m = last;
                m.append(text);
                m
            };
            self.ring.push(merged);
            assert(self@ =~= pushed(old(self)@, text@, prepend, accumulate));
            return;
        }
        self.ring.push(String::from_str(text));
        assert(self@ =~= pushed(old(self)@, text@, prepend, accumulate));
    }

    /// The most recent entry, without modifying the ring.
    pub fn peek(&self) -> (r: Option<&str>)
        ensures
            r is None <==> self@.len() == 0,
            r matches Some(s) ==> s@ == self@.last(),
    {
        let n = self.ring.len();
        if n == 0 {
            None
        } else {
            Some(self.ring[n - 1].as_str())
        }
    }

    /// Move the most recent entry to the front (yank-pop cycling).
    pub fn rotate(&mut self)
        ensures
            final(self)@ == rotated(old(self)@),
    {
        if self.ring.len() > 1 {
            let last = self.ring.pop().unwrap();
            self.ring.insert(0, last);
            assert(self@ =~= rotated(old(self)@));
        }
    }

    pub fn len(&self) -> (n: usize)
        ensures
            n == self@.len(),
    {
        self.ring.len()
    }

    pub fn is_empty(&self) -> (b: bool)
        ensures
            b <==> self@.len() == 0,
    {
        self.ring.len() == 0
    }
}

/// The ring after `k` rotations.
pub open spec fn rotated_n(s: Seq<Seq<char>>, k: nat) -> Seq<Seq<char>>
    decreases k,
{
    if k == 0 {
        s
    } else {
        rotated(rotated_n(s, (k - 1) as nat))
    }
}

proof fn lemma_rotated_n_shape(s: Seq<Seq<char>>, k: nat)
    requires
        s.len() > 1,
        k <= s.len(),
    ensures
        rotated_n(s, k) == s.skip(s.len() - k) + s.take(s.len() - k),
    decreases k,
{
    if k == 0 {
        assert(s.skip(s.len() as int) + s.take(s.len() as int) =~= s);
    } else {
        lemma_rotated_n_shape(s, (k - 1) as nat);
        let prev = rotated_n(s, (k - 1) as nat);
        let j = s.len() - k;
        assert(prev =~= s.skip(j + 1) + s.take(j + 1));
        assert(rotated(prev) =~= s.skip(j) + s.take(j));
    }
}

/// Rotating the ring once per entry gives it back: yank-pop cycles through
/// every kill and returns to the one it started from.
pub proof fn law_rotate_full_cycle(s: Seq<Seq<char>>)
    ensures
        rotated_n(s, s.len()) == s,
{
    if s.len() > 1 {
        lemma_rotated_n_shape(s, s.len());
        assert(s.skip(0) + s.take(0) =~= s);
    } else {
        lemma_rotated_n_small(s, s.len());
    }
}

proof fn lemma_rotated_n_small(s: Seq<Seq<char>>, k: nat)
    requires
        s.len() <= 1,
    ensures
        rotated_n(s, k) == s,
    decreases k,
{
    if k > 0 {
        lemma_rotated_n_small(s, (k - 1) as nat);
    }
}

/// A kill that does not accumulate is what the next yank inserts: after
/// pushing non-empty `text`, the most recent entry is `text`.
pub proof fn law_push_then_peek(s: Seq<Seq<char>>, text: Seq<char>, prepend: bool)
    requires
        text.len() > 0,
    ensures
        pushed(s, text, prepend, false).last() == text,
        pushed(s, text, prepend, false).len() == s.len() + 1,
{
}

} // verus!
