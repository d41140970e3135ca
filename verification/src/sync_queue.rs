//! A simple FIFO queue used for pending work items.

use vstd::prelude::*;

verus! {

/// A FIFO queue: items are pushed at the back and popped from the front.
pub struct SyncQueue<T> {
    el: std::collections::VecDeque<T>,
}

impl<T> SyncQueue<T> {
    /// The items in the queue, front first.
    pub closed spec fn view(&self) -> Seq<T> {
        self.el@
    }

    pub fn new() -> (r: Self)
        ensures
            r@.len() == 0,
    {
        SyncQueue { el: std::collections::VecDeque::new() }
    }

    /// Appends an item at the back.
    pub fn push(&mut self, t: T)
        ensures
            final(self)@ == old(self)@.push(t),
    {
        self.el.push_back(t);
    }

    /// Removes and returns the front item, or `None` when the queue is empty.
    pub fn pop(&mut self) -> (r: Option<T>)
        ensures
            old(self)@.len() == 0 ==> r is None && final(self)@ == old(self)@,
            old(self)@.len() > 0 ==> r == Some(old(self)@[0]) && final(self)@ == old(self)@.skip(1),
    {
        self.el.pop_front()
    }

    /// Returns whether the queue holds no items.
    pub fn is_empty(&self) -> (r: bool)
        ensures
            r == (self@.len() == 0),
    {
        self.el.len() == 0
    }
}

} // verus!
