//! URL frontier: an unbounded FIFO queue of pending URLs. A configured
//! politeness delay is carried alongside the queue; waiting it out is the
//! caller's task before each `dequeue`, since this library does not sleep.

use vstd::prelude::*;

verus! {

/// A FIFO work queue, seen abstractly as the sequence of its pending items,
/// head first.
pub trait Queue<T>: Enqueue<T> + Dequeue<T> {

}

/// Taking from the head of the queue. An empty answer is a point-in-time
/// observation, not a promise that the queue stays empty.
pub trait Dequeue<T>: View<V = Seq<T>> {
    fn dequeue(&mut self) -> (r: Option<T>)
        ensures
            old(self)@.len() == 0 ==> r is None && final(self)@ == old(self)@,
            old(self)@.len() > 0 ==> r == Some(old(self)@[0]) && final(self)@ == old(
                self,
            )@.drop_first(),
    ;
}

/// Appending to the tail of the queue: no validation, no deduplication,
/// never fails.
pub trait Enqueue<T>: View<V = Seq<T>> {
    fn enqueue(&mut self, value: T)
        ensures
            final(self)@ == old(self)@.push(value),
    ;
}

/// The in-memory frontier: a vector holding the pending items head first,
/// and the configured politeness delay in seconds, if any.
pub struct URLFrontier<T> {
    queue: Vec<T>,
    delay_s: Option<u64>,
}

impl<T> View for URLFrontier<T> {
    type V = Seq<T>;

    closed spec fn view(&self) -> Seq<T> {
        self.queue@
    }
}

impl<T> URLFrontier<T> {
    /// The configured politeness delay, as the builder set it.
    pub closed spec fn spec_delay_s(&self) -> Option<u64> {
        self.delay_s
    }

    /// The politeness delay in seconds that the caller is to wait before
    /// each `dequeue`, or `None` when dequeues are not throttled.
    pub fn delay_s(&self) -> (r: Option<u64>)
        ensures
            r == self.spec_delay_s(),
    {
        self.delay_s
    }
}

impl<T> Queue<T> for URLFrontier<T> {

}

impl<T> Dequeue<T> for URLFrontier<T> {
    fn dequeue(&mut self) -> (r: Option<T>) {
        if self.queue.len() == 0 {
            None
        } else {
            let value = self.queue.remove(0);
            proof {
                assert(self.queue@ =~= old(self).queue@.drop_first());
            }
            Some(value)
        }
    }
}

impl<T> Enqueue<T> for URLFrontier<T> {
    fn enqueue(&mut self, value: T) {
        self.queue.push(value)
    }
}

/// Options for building a frontier: the optional politeness delay in
/// seconds, and the seed URL the queue starts with.
pub struct UrlFrontierOptions<T> {
    pub delay_s: Option<u64>,
    pub uri: T,
}

/// Builds a `URLFrontier` from initial items and a delay setting.
pub struct URLFrontierBuilder<T> {
    queue: Vec<T>,
    delay_s: Option<u64>,
}

impl<T> URLFrontierBuilder<T> {
    /// The items the built frontier will start with, head first.
    pub closed spec fn pending(&self) -> Seq<T> {
        self.queue@
    }

    /// The delay setting the built frontier will carry.
    pub closed spec fn spec_delay_s(&self) -> Option<u64> {
        self.delay_s
    }

    /// Starts a builder with no items and no delay.
    pub fn new() -> (r: URLFrontierBuilder<T>)
        ensures
            r.pending() == Seq::<T>::empty(),
            r.spec_delay_s() is None,
    {
        URLFrontierBuilder { queue: Vec::new(), delay_s: None }
    }

    /// Appends an initial item.
    pub fn value(self, value: T) -> (r: URLFrontierBuilder<T>)
        ensures
            r.pending() == self.pending().push(value),
            r.spec_delay_s() == self.spec_delay_s(),
    {
        let mut builder = self;
        builder.queue.push(value);
        builder
    }

    /// Sets the politeness delay; zero seconds means no throttling and
    /// leaves the setting as it was.
    pub fn delay_s(self, delay_s: u64) -> (r: URLFrontierBuilder<T>)
        ensures
            r.pending() == self.pending(),
            delay_s > 0 ==> r.spec_delay_s() == Some(delay_s),
            delay_s == 0 ==> r.spec_delay_s() == self.spec_delay_s(),
    {
        if delay_s > 0 {
            let URLFrontierBuilder { queue, .. } = self;
            URLFrontierBuilder { delay_s: Some(delay_s), queue }
        } else {
            self
        }
    }

    /// Finishes the builder.
    pub fn build(self) -> (r: URLFrontier<T>)
        ensures
            r@ == self.pending(),
            r.spec_delay_s() == self.spec_delay_s(),
    {
        URLFrontier { queue: self.queue, delay_s: self.delay_s }
    }
}

} // verus!
