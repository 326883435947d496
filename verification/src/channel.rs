//! A multi-producer, single-consumer channel.
//!
//! Any number of [`Sender`]s hand values to one [`Receiver`] through a queue
//! behind a lock. Receiving blocks while the queue is empty and a sender is
//! left, and reports the end once the queue is empty and no sender is left.
//!
//! What happens to the shared state in each step is stated and proved in
//! [`state`]; what follows for whole runs of a channel is proved in
//! [`model`].

use std::collections::VecDeque;
use std::sync::{Arc, Condvar, Mutex};
use vstd::prelude::*;

pub mod model;
pub mod state;
pub mod sync;

use model::{receives, Event, Model};
use state::{Inner, State};
use sync::{guarded, lock, notify_one, wait_poll};

verus! {

/// The lock with the state it guards, and the condition variable on which
/// the receiver waits for that state to become ready.
#[verifier::reject_recursive_types(T)]
struct Shared<T> {
    inner: Mutex<Inner<T>>,
    available: Condvar,
}

/// The sending half of a channel. It can be cloned; the channel closes when
/// the last clone is dropped.
#[verifier::reject_recursive_types(T)]
pub struct Sender<T> {
    shared: Arc<Shared<T>>,
}

/// The receiving half of a channel.
#[verifier::reject_recursive_types(T)]
pub struct Receiver<T> {
    shared: Arc<Shared<T>>,
    buffer: VecDeque<T>,
}

/// Moves the values of `values` into a queue, in their order.
pub fn collect<T>(values: Vec<T>) -> (batch: VecDeque<T>)
    ensures
        batch@ == values@,
{
    let mut batch = VecDeque::new();
    let ghost all = values@;
    for value in it: values
        invariant
            it.seq() == all,
            batch@ == all.take(it.index() as int),
    {
        batch.push_back(value);
        proof {
            assert(batch@ =~= all.take(it.index() + 1));
        }
    }
    proof {
        assert(batch@ =~= all);
    }
    batch
}

impl<T> Sender<T> {
    /// What this sender sends is what `receiver` receives: both are handles
    /// of one channel.
    pub closed spec fn feeds(&self, receiver: &Receiver<T>) -> bool {
        self.shared == receiver.shared
    }

    /// Appends `value` to the queue and wakes the receiver. Never blocks
    /// for longer than another handle holds the lock.
    ///
    /// The queue is behind the lock, out of sight of this contract: what is
    /// done to it is [`Inner::push`].
    pub fn send(&mut self, value: T)
        ensures
            *final(self) == *old(self),
    {
        {
            let mut guard = lock(&self.shared.inner);
            guarded(&mut guard).push(value);
        }
        notify_one(&self.shared.available);
    }

    /// Appends all of `values` to the queue, in their order and with nothing
    /// else between them, and wakes the receiver.
    ///
    /// What is done to the queue is [`Inner::append`], on the batch that
    /// [`collect`] makes of `values`.
    pub fn send_many(&mut self, values: Vec<T>)
        ensures
            *final(self) == *old(self),
    {
        let mut batch = collect(values);
        {
            let mut guard = lock(&self.shared.inner);
            guarded(&mut guard).append(&mut batch);
        }
        notify_one(&self.shared.available);
    }
}

impl<T> Clone for Sender<T> {
    /// Counts one more sender and returns a handle to the same channel.
    ///
    /// The count is [`Inner::add_sender`]. It stays where it is once it has
    /// reached `usize::MAX`, which no program can reach with handles that
    /// each take up memory.
    fn clone(&self) -> (other: Self)
        ensures
            other == *self,
    {
        {
            let mut guard = lock(&self.shared.inner);
            let inner = guarded(&mut guard);
            if inner.senders() < usize::MAX {
                inner.add_sender();
            }
        }
        Sender { shared: Arc::clone(&self.shared) }
    }
}

impl<T> Drop for Sender<T> {
    /// Counts one sender less and, if none is left, wakes the receiver so
    /// that it sees the end. The count is [`Inner::remove_sender`].
    fn drop(&mut self)
        opens_invariants none
        no_unwind
    {
        let mut last = false;
        {
            let mut guard = lock(&self.shared.inner);
            let inner = guarded(&mut guard);
            if inner.senders() > 0 {
                last = inner.remove_sender();
            }
        }
        if last {
            notify_one(&self.shared.available);
        }
    }
}

impl<T> Receiver<T> {
    /// The values that this receiver has taken off the queue and not handed
    /// out yet, oldest first.
    pub closed spec fn buffered(&self) -> Seq<T> {
        self.buffer@
    }

    /// Returns the oldest value not received so far, or `None` once nothing
    /// is left and no sender lives. Blocks while nothing is left and a
    /// sender lives.
    ///
    /// A value in the receiver's own buffer is returned without a look at
    /// the shared state. With the buffer empty, the receiver waits for the
    /// shared state to be ready, takes the front value and moves everything
    /// behind it to its buffer.
    pub fn recv(&mut self) -> (value: Option<T>)
        ensures
            forall|sender: Sender<T>| sender.feeds(old(self)) ==> sender.feeds(final(self)),
            receives(old(self).buffered(), value, final(self).buffered()),
            old(self).buffered().len() > 0 ==> value == Some(old(self).buffered()[0])
                && final(self).buffered() == old(self).buffered().skip(1),
            value is None ==> final(self).buffered().len() == 0,
    {
        if let Some(value) = self.buffer.pop_front() {
            proof {
                let found = Model { buffer: old(self).buffered(), shared: State::<T>::fresh() };
                assert(found.enabled(Event::Recv));
                assert(self.buffered() =~= old(self).buffered().skip(1));
            }
            return Some(value);
        }
        let guard = lock(&self.shared.inner);
        let (_guard, value) = wait_poll(&self.shared.available, guard, &mut self.buffer);
        proof {
            let shared = choose|shared: State<T>| #[trigger]
                shared.ready() && value == shared.front() && self.buffered() == shared.rest();
            let found = Model { buffer: old(self).buffered(), shared };
            assert(found.enabled(Event::Recv));
        }
        value
    }
}

/// Makes a channel and returns its two halves: the first sender and the
/// receiver. The state that they share is that of [`Inner::new`]: nothing
/// queued, one sender.
pub fn channel<T>() -> (halves: (Sender<T>, Receiver<T>))
    ensures
        halves.0.feeds(&halves.1),
        halves.1.buffered() == Seq::<T>::empty(),
{
    let inner = Inner::new();
    let shared = Shared { inner: Mutex::new(inner), available: Condvar::new() };
    let shared = Arc::new(shared);
    (Sender { shared: shared.clone() }, Receiver { shared: shared.clone(), buffer: VecDeque::new() })
}

} // verus!
