//! The queue between the task that reads the kernel's records and the task
//! that waits for them: what is pushed first comes out first, and a push
//! wakes the task that waits.

use std::collections::VecDeque;
use std::task::Waker;
use vstd::prelude::*;

verus! {

#[verifier::external_type_specification]
#[verifier::external_body]
pub struct ExWaker(Waker);

/// `Waker::wake`: wakes the task that the waker belongs to. Nothing comes
/// back.
#[verifier::external_body]
fn wake(waker: Waker) {
    waker.wake()
}

/// `Waker::clone`: another waker of the same task. Nothing is claimed of
/// it.
#[verifier::external_body]
fn another(waker: &Waker) -> (copy: Waker) {
    waker.clone()
}

/// Why nothing came out of a queue.
#[derive(Debug)]
pub enum QueueError {
    NoData,
}

/// A queue with, at most, one task that waits for its next item.
pub struct SharedQueue<T> {
    queue: VecDeque<T>,
    waker: Option<Waker>,
}

impl<T> View for SharedQueue<T> {
    type V = Seq<T>;

    /// The items in the queue, the next to come out first.
    closed spec fn view(&self) -> Seq<T> {
        self.queue@
    }
}

impl<T> SharedQueue<T> {
    /// Whether a task waits for the next item.
    pub closed spec fn awaited(&self) -> bool {
        self.waker is Some
    }

    pub fn new() -> (queue: Self)
        ensures
            queue@ == Seq::<T>::empty(),
            !queue.awaited(),
    {
        Self { queue: VecDeque::new(), waker: None }
    }

    /// Puts an item at the end of the queue and wakes the task that waits,
    /// which then waits no longer.
    pub fn push(&mut self, item: T)
        ensures
            final(self)@ == old(self)@.push(item),
            !final(self).awaited(),
    {
        self.queue.push_back(item);
        match self.waker.take() {
            Some(waker) => wake(waker),
            None => {},
        }
    }

    /// Takes the first item out of the queue, where there is one.
    pub fn pop_nowait(&mut self) -> (outcome: Result<T, QueueError>)
        ensures
            final(self).awaited() == old(self).awaited(),
            match outcome {
                Ok(item) => old(self)@.len() > 0 && item == old(self)@[0] && final(self)@ == old(
                    self,
                )@.skip(1),
                Err(_) => old(self)@.len() == 0 && final(self)@ == old(self)@,
            },
    {
        match self.queue.pop_front() {
            Some(value) => {
                assert(self.queue@ =~= old(self).queue@.skip(1));
                Ok(value)
            },
            None => Err(QueueError::NoData),
        }
    }

    /// Notes the task that waits for the next item.
    pub fn register_waker(&mut self, waker: &Waker)
        ensures
            final(self)@ == old(self)@,
            final(self).awaited(),
    {
        self.waker = Some(another(waker));
    }
}

} // verus!
