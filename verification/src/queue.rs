//! A generic first-in-first-out container.

use std::collections::VecDeque;
use vstd::prelude::*;

verus! {

/// A queue of values of type `T`, backed by a double-ended buffer.
///
/// The abstract value of a queue is the sequence of its elements from
/// front to back: elements enter at the back and leave at the front.
pub struct Queue<T> {
    items: VecDeque<T>,
}

impl<T> View for Queue<T> {
    type V = Seq<T>;

    closed spec fn view(&self) -> Seq<T> {
        self.items@
    }
}

impl<T> Queue<T> {
    /// Creates an empty queue.
    pub fn new() -> (q: Queue<T>)
        ensures
            q@ == Seq::<T>::empty(),
    {
        Queue { items: VecDeque::new() }
    }

    /// Adds `item` at the back of the queue.
    pub fn enqueue(&mut self, item: T)
        ensures
            final(self)@ == old(self)@.push(item),
    {
        self.items.push_back(item);
    }

    /// Removes and returns the front element, or `None` on an empty queue.
    pub fn dequeue(&mut self) -> (r: Option<T>)
        ensures
            match r {
                Some(item) => old(self)@.len() > 0 && item == old(self)@.first()
                    && final(self)@ == old(self)@.drop_first(),
                None => old(self)@.len() == 0 && final(self)@ == old(self)@,
            },
    {
        self.items.pop_front()
    }

    /// Reports whether the queue holds no elements.
    pub fn is_empty(&self) -> (r: bool)
        ensures
            r == (self@.len() == 0),
    {
        self.items.len() == 0
    }
}

} // verus!
