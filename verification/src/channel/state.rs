//! The state that all handles of one channel share, and the steps that
//! change it. Each step is what one handle does while it holds the lock.

use std::collections::VecDeque;
use vstd::prelude::*;

verus! {

/// The shared state as a mathematical value: the values waiting to be
/// received, oldest first, and the number of live senders.
pub struct State<T> {
    pub queue: Seq<T>,
    pub senders: nat,
}

impl<T> State<T> {
    /// The state of a new channel: nothing queued, one sender.
    pub open spec fn fresh() -> Self {
        State { queue: Seq::empty(), senders: 1 }
    }

    /// One value is appended.
    pub open spec fn push(self, value: T) -> Self {
        State { queue: self.queue.push(value), senders: self.senders }
    }

    /// A batch of values is appended, in its order.
    pub open spec fn extend(self, values: Seq<T>) -> Self {
        State { queue: self.queue + values, senders: self.senders }
    }

    /// A sender is cloned.
    pub open spec fn add_sender(self) -> Self {
        State { queue: self.queue, senders: self.senders + 1 }
    }

    /// A sender is dropped.
    pub open spec fn remove_sender(self) -> Self
        recommends
            self.senders > 0,
    {
        State { queue: self.queue, senders: (self.senders - 1) as nat }
    }

    /// No sender is left: nothing will be queued any more.
    pub open spec fn disconnected(self) -> bool {
        self.senders == 0
    }

    /// A receiver that finds this state has no reason to wait: either a
    /// value is queued or no sender is left to queue one.
    pub open spec fn ready(self) -> bool {
        self.queue.len() > 0 || self.disconnected()
    }

    /// The value that a receiver takes: the oldest one, if there is any.
    pub open spec fn front(self) -> Option<T> {
        if self.queue.len() > 0 {
            Some(self.queue[0])
        } else {
            None
        }
    }

    /// The values that a receiver carries off together with the front one.
    pub open spec fn rest(self) -> Seq<T> {
        if self.queue.len() > 0 {
            self.queue.skip(1)
        } else {
            Seq::empty()
        }
    }

    /// The state that a receiver leaves behind: the queue is empty.
    pub open spec fn drained(self) -> Self {
        State { queue: Seq::empty(), senders: self.senders }
    }
}

/// The data that the lock of a channel guards.
pub struct Inner<T> {
    queue: VecDeque<T>,
    senders: usize,
}

impl<T> View for Inner<T> {
    type V = State<T>;

    closed spec fn view(&self) -> State<T> {
        State { queue: self.queue@, senders: self.senders as nat }
    }
}

impl<T> Inner<T> {
    /// The state of a new channel.
    pub fn new() -> (inner: Self)
        ensures
            inner@ == State::<T>::fresh(),
    {
        Inner { queue: VecDeque::new(), senders: 1 }
    }

    /// The number of live senders.
    pub fn senders(&self) -> (n: usize)
        ensures
            n == self@.senders,
        opens_invariants none
        no_unwind
    {
        self.senders
    }

    /// The number of queued values.
    pub fn len(&self) -> (n: usize)
        ensures
            n == self@.queue.len(),
    {
        self.queue.len()
    }

    /// Appends one value to the queue.
    pub fn push(&mut self, value: T)
        ensures
            final(self)@ == old(self)@.push(value),
    {
        self.queue.push_back(value);
    }

    /// Moves a batch of values to the end of the queue, in one step.
    pub fn append(&mut self, batch: &mut VecDeque<T>)
        ensures
            final(self)@ == old(self)@.extend(old(batch)@),
            final(batch)@ == Seq::<T>::empty(),
    {
        self.queue.append(batch);
    }

    /// Counts one more sender.
    pub fn add_sender(&mut self)
        requires
            old(self)@.senders < usize::MAX,
        ensures
            final(self)@ == old(self)@.add_sender(),
    {
        self.senders = self.senders + 1;
    }

    /// Counts one sender less, and says whether it was the last.
    pub fn remove_sender(&mut self) -> (last: bool)
        requires
            old(self)@.senders > 0,
        ensures
            final(self)@ == old(self)@.remove_sender(),
            last == final(self)@.disconnected(),
        opens_invariants none
        no_unwind
    {
        self.senders = self.senders - 1;
        self.senders == 0
    }

    /// One attempt of a receiver, whose own buffer is empty, to take a
    /// value.
    ///
    /// Where the state is ready, the front value goes to `slot`, everything
    /// queued behind it moves to `buffer`, and the answer is `false`. With
    /// nothing queued and no sender left, `slot` is `None`. Where the
    /// receiver has to wait instead, the answer is `true` and nothing
    /// changes.
    pub fn poll(&mut self, buffer: &mut VecDeque<T>, slot: &mut Option<T>) -> (wait: bool)
        requires
            old(buffer)@.len() == 0,
        ensures
            wait == !old(self)@.ready(),
            wait ==> final(self)@ == old(self)@ && final(buffer)@ == old(buffer)@ && *final(slot)
                == *old(slot),
            !wait ==> final(self)@ == old(self)@.drained() && final(buffer)@ == old(self)@.rest()
                && *final(slot) == old(self)@.front(),
    {
        match self.queue.pop_front() {
            Some(value) => {
                if self.queue.len() > 0 {
                    std::mem::swap(buffer, &mut self.queue);
                }
                *slot = Some(value);
                proof {
                    assert(self@.queue =~= Seq::empty());
                    assert(buffer@ =~= old(self)@.rest());
                }
                false
            },
            None => {
                if self.senders == 0 {
                    *slot = None;
                    proof {
                        assert(self@.queue =~= Seq::empty());
                        assert(buffer@ =~= old(self)@.rest());
                    }
                    false
                } else {
                    true
                }
            },
        }
    }
}

} // verus!
