//! The message log: an append-only sequence of colored lines.

use vstd::prelude::*;
use crate::color::Color;

verus! {

/// Ordered log of `(text, color)` lines, newest appended last. The log only
/// ever grows; display truncation is the renderer's concern, not ours.
pub struct Messages {
    pub entries: Vec<(String, Color)>,
}

impl View for Messages {
    type V = Seq<(Seq<char>, Color)>;

    open spec fn view(&self) -> Seq<(Seq<char>, Color)> {
        self.entries@.map_values(|e: (String, Color)| (e.0@, e.1))
    }
}

impl Messages {
    pub fn new() -> (m: Messages)
        ensures
            m@ == Seq::<(Seq<char>, Color)>::empty(),
    {
        let m = Messages { entries: Vec::new() };
        proof {
            assert(m@ =~= Seq::<(Seq<char>, Color)>::empty());
        }
        m
    }

    /// Append one line to the log.
    pub fn add(&mut self, text: String, color: Color)
        ensures
            final(self)@ == old(self)@.push((text@, color)),
    {
        let ghost t = text@;
        self.entries.push((text, color));
        proof {
            assert(self@ =~= old(self)@.push((t, color)));
        }
    }

    pub fn len(&self) -> (n: usize)
        ensures
            n == self@.len(),
    {
        self.entries.len()
    }

    /// Read one line back, for rendering.
    pub fn get(&self, i: usize) -> (e: &(String, Color))
        requires
            i < self@.len(),
        ensures
            (e.0@, e.1) == self@[i as int],
    {
        &self.entries[i]
    }
}

} // verus!
