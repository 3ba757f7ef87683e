//! A forward-only cursor over a sequence of items, with a single item of
//! non-destructive lookahead. The lexer walks a cursor of positioned
//! characters; a composed parser step walks a cursor of its input items.

use vstd::prelude::*;

verus! {

/// A peekable forward cursor: items are handed out in order, once each,
/// and the head item may be inspected without consuming it.
pub struct Cursor<T> {
    items: Vec<T>,
}

impl<T> View for Cursor<T> {
    type V = Seq<T>;

    closed spec fn view(&self) -> Seq<T> {
        self.items@
    }
}

impl<T> Cursor<T> {
    /// Wraps a sequence of items; the cursor stands before the first of them.
    pub fn new(items: Vec<T>) -> (c: Self)
        ensures
            c@ == items@,
    {
        Cursor { items }
    }

    /// Consumes and returns the head item, or `None` at the end of the input.
    pub fn next(&mut self) -> (r: Option<T>)
        ensures
            match r {
                Some(t) => old(self)@.len() > 0 && t == old(self)@[0] && final(self)@ == old(
                    self,
                )@.skip(1),
                None => old(self)@.len() == 0 && final(self)@ == old(self)@,
            },
    {
        if self.items.len() == 0 {
            None
        } else {
            let t = self.items.remove(0);
            assert(self.items@ =~= old(self)@.skip(1));
            Some(t)
        }
    }

    /// Returns the head item without consuming it, or `None` at the end.
    pub fn peek(&self) -> (r: Option<&T>)
        ensures
            match r {
                Some(t) => self@.len() > 0 && *t == self@[0],
                None => self@.len() == 0,
            },
    {
        if self.items.len() == 0 {
            None
        } else {
            Some(&self.items[0])
        }
    }

    /// The number of items that are still to be consumed.
    pub fn len(&self) -> (n: usize)
        ensures
            n == self@.len(),
    {
        self.items.len()
    }
}

} // verus!
