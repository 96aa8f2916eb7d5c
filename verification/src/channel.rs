//! A FIFO queue with the contract of the engine's internal channel.
//!
//! The channel carries any number of producers' elements to one consumer in
//! first-in, first-out order. The verified core models the queue itself;
//! the blocking receive of the concurrent shell waits until an element is
//! available, which here appears as the precondition of [`Channel::get`]:
//! an element must be queued before it can be taken.

use vstd::prelude::*;

use std::collections::VecDeque;

use crate::exception::Exception;

verus! {

/// A FIFO queue of elements of type `T`, viewed as the sequence of queued
/// elements, oldest first.
pub struct Channel<T> {
    queue: VecDeque<T>,
}

impl<T> View for Channel<T> {
    type V = Seq<T>;

    closed spec fn view(&self) -> Seq<T> {
        self.queue@
    }
}

impl<T> Channel<T> {
    /// Creates an empty channel.
    pub fn new() -> (c: Self)
        ensures
            c@ == Seq::<T>::empty(),
    {
        Self { queue: VecDeque::new() }
    }

    /// Appends `element` at the tail of the queue. Never blocks.
    pub fn put(&mut self, element: T) -> (r: Result<(), Exception>)
        ensures
            r.is_ok(),
            final(self)@ == old(self)@.push(element),
    {
        self.queue.push_back(element);
        Ok(())
    }

    /// Number of queued elements.
    pub fn len(&self) -> (n: usize)
        ensures
            n == self@.len(),
    {
        self.queue.len()
    }

    /// Removes and returns the head of the queue. The concurrent shell
    /// blocks until an element is available; the verified queue requires
    /// one to be present.
    pub fn get(&mut self) -> (r: Result<T, Exception>)
        requires
            old(self)@.len() > 0,
        ensures
            final(self)@ == old(self)@.drop_first(),
            r matches Ok(e) && e == old(self)@[0],
    {
        match self.queue.pop_front() {
            Some(element) => Ok(element),
            None => Err(Exception::Execution("Channel resource poisoned")),
        }
    }
}

impl<T> Default for Channel<T> {
    fn default() -> (c: Self)
        ensures
            c@ == Seq::<T>::empty(),
    {
        Self::new()
    }
}

} // verus!
