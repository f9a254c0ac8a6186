//! A generic last-in-first-out container.

use vstd::prelude::*;

verus! {

/// A stack of values of type `T`, backed by a growable array.
///
/// The abstract value of a stack is the sequence of its elements from
/// bottom to top, so the top of the stack is the last element of the view.
pub struct Stack<T> {
    items: Vec<T>,
}

impl<T> View for Stack<T> {
    type V = Seq<T>;

    closed spec fn view(&self) -> Seq<T> {
        self.items@
    }
}

impl<T> Stack<T> {
    /// Creates an empty stack.
    pub fn new() -> (s: Stack<T>)
        ensures
            s@ == Seq::<T>::empty(),
    {
        Stack { items: Vec::new() }
    }

    /// Places `item` on top of the stack.
    pub fn push(&mut self, item: T)
        ensures
            final(self)@ == old(self)@.push(item),
    {
        self.items.push(item);
    }

    /// Removes and returns the top element, or `None` on an empty stack.
    pub fn pop(&mut self) -> (r: Option<T>)
        ensures
            match r {
                Some(item) => old(self)@.len() > 0 && item == old(self)@.last()
                    && final(self)@ == old(self)@.drop_last(),
                None => old(self)@.len() == 0 && final(self)@ == old(self)@,
            },
    {
        self.items.pop()
    }

    /// Reports whether the stack holds no elements.
    pub fn is_empty(&self) -> (r: bool)
        ensures
            r == (self@.len() == 0),
    {
        self.items.len() == 0
    }

    /// Returns the number of elements on the stack.
    pub fn size(&self) -> (n: usize)
        ensures
            n == self@.len(),
    {
        self.items.len()
    }

    /// Borrows the top element without removing it, or `None` on an
    /// empty stack.
    pub fn peek(&self) -> (r: Option<&T>)
        ensures
            match r {
                Some(item) => self@.len() > 0 && *item == self@.last(),
                None => self@.len() == 0,
            },
    {
        if self.items.len() == 0 {
            None
        } else {
            Some(&self.items[self.items.len() - 1])
        }
    }
}

} // verus!
