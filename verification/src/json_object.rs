//! The buffer that assembles the text of the element currently being built,
//! and renders it as one normalized line.

use vstd::prelude::*;

use crate::text::{
    chars_to_string, collapse_newline_runs, spec_collapse, spec_render, str_to_chars,
};

verus! {

/// The JSON Lines string being built: an append-only character buffer with a
/// derived normalized rendering. Its view is the raw buffered text.
pub struct JSONLString {
    text: Vec<char>,
}

impl View for JSONLString {
    type V = Seq<char>;

    closed spec fn view(&self) -> Seq<char> {
        self.text@
    }
}

impl JSONLString {
    /// Creates an empty buffer.
    pub fn new() -> (r: JSONLString)
        ensures
            r@ == Seq::<char>::empty(),
    {
        JSONLString { text: Vec::new() }
    }

    /// Appends one character to the buffer.
    pub fn push_char(&mut self, c: &char)
        ensures
            final(self)@ == old(self)@.push(*c),
    {
        self.text.push(*c);
    }

    /// Appends the characters of a string slice to the buffer.
    pub fn push_str(&mut self, s: &str)
        ensures
            final(self)@ == old(self)@ + s@,
    {
        let mut cs = str_to_chars(s);
        self.text.append(&mut cs);
    }

    /// Appends the characters of a vector to the buffer.
    pub fn push_chars(&mut self, cs: &Vec<char>)
        ensures
            final(self)@ == old(self)@ + cs@,
    {
        let mut copy = Vec::new();
        let mut i: usize = 0;
        while i < cs.len()
            invariant
                i <= cs@.len(),
                copy@ == cs@.subrange(0, i as int),
            decreases cs@.len() - i,
        {
            copy.push(cs[i]);
            proof {
                assert(cs@.subrange(0, (i + 1) as int) =~= cs@.subrange(0, i as int).push(
                    cs@[i as int],
                ));
            }
            i = i + 1;
        }
        proof {
            assert(copy@ =~= cs@);
        }
        self.text.append(&mut copy);
    }

    /// Logically empties the buffer for reuse.
    pub fn clear(&mut self)
        ensures
            final(self)@ == Seq::<char>::empty(),
    {
        self.text.clear();
    }

    /// The number of characters currently buffered.
    pub fn len(&self) -> (r: usize)
        ensures
            r == self@.len(),
    {
        self.text.len()
    }

    /// The normalized rendering of the buffer: every whitespace run that
    /// contains a newline collapses to nothing, then exactly one leading and
    /// one trailing separator comma are stripped. The buffer itself is left
    /// unchanged.
    pub fn to_string(&self) -> (r: String)
        ensures
            r@ == spec_render(self@),
    {
        let mut w = collapse_newline_runs(&self.text);
        if w.len() > 0 && w[0] == ',' {
            w.remove(0);
            proof {
                assert(w@ =~= spec_collapse(self@).subrange(1, spec_collapse(self@).len() as int));
            }
        }
        if w.len() > 0 && w[w.len() - 1] == ',' {
            w.pop();
        }
        chars_to_string(&w)
    }
}

} // verus!
