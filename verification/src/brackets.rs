//! Bracket classification and the stack of currently open brackets.
//!
//! The stack is the single source of truth for how deeply the scanner is
//! nested and for whether the top-level element has just closed.

use vstd::prelude::*;

verus! {

/// True exactly for the two bracket characters that open a JSON nesting
/// level, `[` and `{`. A parenthesis is not a JSON bracket.
pub open spec fn spec_is_opening_bracket(c: char) -> bool {
    c == '[' || c == '{'
}

/// True exactly for the two bracket characters that close a JSON nesting
/// level, `]` and `}`.
pub open spec fn spec_is_closing_bracket(c: char) -> bool {
    c == ']' || c == '}'
}

/// Holds when `opening` is the opening counterpart of the closing bracket
/// `closing`: `[` pairs with `]` and `{` pairs with `}`.
pub open spec fn spec_pairs_with(opening: char, closing: char) -> bool {
    (closing == ']' && opening == '[') || (closing == '}' && opening == '{')
}

/// Checks whether a character is an opening bracket (`[` or `{`).
pub fn is_opening_bracket(c: &char) -> (r: bool)
    ensures
        r == spec_is_opening_bracket(*c),
{
    match c {
        '[' | '{' => true,
        _ => false,
    }
}

/// Checks whether a character is a closing bracket (`]` or `}`).
pub fn is_closing_bracket(c: &char) -> (r: bool)
    ensures
        r == spec_is_closing_bracket(*c),
{
    match c {
        ']' | '}' => true,
        _ => false,
    }
}

/// The correspondence from each closing bracket to its opening counterpart,
/// as a small table of (closing, opening) pairs.
pub fn brackets_map() -> (r: Vec<(char, char)>)
    ensures
        r@ == seq![(']', '['), ('}', '{')],
{
    let mut map: Vec<(char, char)> = Vec::new();
    map.push((']', '['));
    map.push(('}', '{'));
    proof {
        assert(map@ =~= seq![(']', '['), ('}', '{')]);
    }
    map
}

/// A stack of the opening brackets that have been seen but not yet closed.
/// Its length is the current nesting depth, the outermost array included.
pub struct BracketStack {
    pub stack: Vec<char>,
}

impl View for BracketStack {
    type V = Seq<char>;

    open spec fn view(&self) -> Seq<char> {
        self.stack@
    }
}

impl BracketStack {
    /// Creates an empty stack.
    pub fn new() -> (r: BracketStack)
        ensures
            r@ == Seq::<char>::empty(),
    {
        BracketStack { stack: Vec::new() }
    }

    /// Whether no bracket is currently open.
    pub fn is_empty(&self) -> (r: bool)
        ensures
            r == (self@.len() == 0),
    {
        self.stack.len() == 0
    }

    /// The number of currently open brackets: the nesting depth.
    pub fn len(&self) -> (r: usize)
        ensures
            r == self@.len(),
    {
        self.stack.len()
    }

    /// Records an opening bracket as now open. Never fails.
    pub fn push(&mut self, c: &char)
        ensures
            final(self)@ == old(self)@.push(*c),
    {
        self.stack.push(*c);
    }

    /// Removes the most recently opened bracket, provided it is the opening
    /// counterpart of the closing bracket `c`. Returns `None` — the fatal
    /// bracket-mismatch condition, signalling malformed input — when the
    /// stack is empty or its top does not pair with `c`; the stack is then
    /// left unchanged.
    pub fn pop_pair(&mut self, c: &char) -> (r: Option<char>)
        ensures
            match r {
                Some(popped) => {
                    &&& old(self)@.len() > 0
                    &&& popped == old(self)@.last()
                    &&& spec_pairs_with(popped, *c)
                    &&& final(self)@ == old(self)@.drop_last()
                },
                None => {
                    &&& final(self)@ == old(self)@
                    &&& (old(self)@.len() == 0 || !spec_pairs_with(old(self)@.last(), *c))
                },
            },
    {
        if self.stack.len() == 0 {
            return None;
        }
        let top = self.stack[self.stack.len() - 1];
        let fits = match *c {
            ']' => top == '[',
            '}' => top == '{',
            _ => false,
        };
        if fits {
            self.stack.pop();
            Some(top)
        } else {
            None
        }
    }

    /// Removes and returns the top bracket, most recently opened first;
    /// `None` once the stack is empty. Used only to drain diagnostically.
    pub fn pop(&mut self) -> (r: Option<char>)
        ensures
            match r {
                Some(top) => {
                    &&& old(self)@.len() > 0
                    &&& top == old(self)@.last()
                    &&& final(self)@ == old(self)@.drop_last()
                },
                None => {
                    &&& old(self)@.len() == 0
                    &&& final(self)@ == old(self)@
                },
            },
    {
        self.stack.pop()
    }
}

} // verus!
