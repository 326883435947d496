//! A channel seen as a whole: the receiver's buffer together with the
//! shared state, and the events that change them.
//!
//! Handles of a channel touch the shared state only while they hold its
//! lock, so whatever the threads do, the channel goes through its events
//! one after another. This module states what is true of every such run:
//! nothing sent is lost or repeated, values come out in the order in which
//! they went in, a channel that has ended stays ended, the count of senders
//! is the count of live handles, and the receiver's buffer changes nothing
//! of what is received.

use crate::channel::state::State;
use vstd::prelude::*;

verus! {

/// The receiver's own buffer and the state behind the lock.
pub struct Model<T> {
    pub buffer: Seq<T>,
    pub shared: State<T>,
}

/// One thing that a handle does to the channel.
pub enum Event<T> {
    /// A sender sends one value.
    Send(T),
    /// A sender sends a batch of values in one step.
    SendMany(Seq<T>),
    /// A sender is cloned.
    CloneSender,
    /// A sender is dropped.
    DropSender,
    /// The receiver receives, and does not have to wait.
    Recv,
}

impl<T> Event<T> {
    /// The values that the event puts into the channel.
    pub open spec fn sends(self) -> Seq<T> {
        match self {
            Event::Send(value) => seq![value],
            Event::SendMany(values) => values,
            _ => Seq::empty(),
        }
    }
}

impl<T> Model<T> {
    /// A channel as `channel` makes it.
    pub open spec fn fresh() -> Self {
        Model { buffer: Seq::empty(), shared: State::fresh() }
    }

    /// The values sent and not received yet, oldest first.
    pub open spec fn pending(self) -> Seq<T> {
        self.buffer + self.shared.queue
    }

    /// The channel has ended: nothing is pending and no sender is left.
    pub open spec fn closed(self) -> bool {
        self.pending().len() == 0 && self.shared.disconnected()
    }

    /// A receive would have to wait: nothing is pending and a sender is
    /// left.
    pub open spec fn blocks(self) -> bool {
        self.buffer.len() == 0 && !self.shared.ready()
    }

    /// The same channel with everything pending in the queue and nothing in
    /// the buffer, as if the receiver had no buffer.
    pub open spec fn unbuffered(self) -> Self {
        Model {
            buffer: Seq::empty(),
            shared: State { queue: self.pending(), senders: self.shared.senders },
        }
    }

    /// What a receive that does not wait returns. With a value in the buffer
    /// that is the buffer's front value; otherwise it is the front value of
    /// the queue, or `None` where the queue is empty.
    pub open spec fn received(self) -> Option<T> {
        if self.buffer.len() > 0 {
            Some(self.buffer[0])
        } else {
            self.shared.front()
        }
    }

    /// The channel after a receive that does not wait. A value from the
    /// buffer leaves the shared state alone; otherwise the rest of the queue
    /// moves to the buffer.
    pub open spec fn after_recv(self) -> Self {
        if self.buffer.len() > 0 {
            Model { buffer: self.buffer.skip(1), shared: self.shared }
        } else {
            Model { buffer: self.shared.rest(), shared: self.shared.drained() }
        }
    }

    /// Whether the event can happen now. A sender can act while it lives,
    /// so while the count of senders is not zero. A receive can return
    /// unless it has to wait.
    pub open spec fn enabled(self, event: Event<T>) -> bool {
        match event {
            Event::Recv => !self.blocks(),
            _ => self.shared.senders > 0,
        }
    }

    /// The channel after the event.
    pub open spec fn step(self, event: Event<T>) -> Self {
        match event {
            Event::Send(value) => Model { buffer: self.buffer, shared: self.shared.push(value) },
            Event::SendMany(values) => Model {
                buffer: self.buffer,
                shared: self.shared.extend(values),
            },
            Event::CloneSender => Model { buffer: self.buffer, shared: self.shared.add_sender() },
            Event::DropSender => Model {
                buffer: self.buffer,
                shared: self.shared.remove_sender(),
            },
            Event::Recv => self.after_recv(),
        }
    }

    /// The value that the event hands to the receiver, if any.
    pub open spec fn output(self, event: Event<T>) -> Option<T> {
        match event {
            Event::Recv => self.received(),
            _ => None,
        }
    }
}

/// What `recv` may do to a receiver whose buffer holds `buffer`: return
/// `value` and leave `left` in the buffer, as a receive that found some
/// shared state and did not have to wait.
pub open spec fn receives<T>(buffer: Seq<T>, value: Option<T>, left: Seq<T>) -> bool {
    exists|shared: State<T>|
        {
            &&& #[trigger] (Model { buffer, shared }).enabled(Event::Recv)
            &&& (Model { buffer, shared }).received() == value
            &&& (Model { buffer, shared }).after_recv().buffer == left
        }
}

/// The channel after a run of events.
pub open spec fn run<T>(start: Model<T>, trace: Seq<Event<T>>) -> Model<T>
    decreases trace.len(),
{
    if trace.len() == 0 {
        start
    } else {
        run(start, trace.drop_last()).step(trace.last())
    }
}

/// Each event of the run can happen when its turn comes.
pub open spec fn valid<T>(start: Model<T>, trace: Seq<Event<T>>) -> bool
    decreases trace.len(),
{
    trace.len() == 0 || (valid(start, trace.drop_last()) && run(start, trace.drop_last()).enabled(
        trace.last(),
    ))
}

/// The values that the receiver gets in a run, in the order in which it
/// gets them.
pub open spec fn delivered<T>(start: Model<T>, trace: Seq<Event<T>>) -> Seq<T>
    decreases trace.len(),
{
    if trace.len() == 0 {
        Seq::empty()
    } else {
        let before = delivered(start, trace.drop_last());
        match run(start, trace.drop_last()).output(trace.last()) {
            Some(value) => before.push(value),
            None => before,
        }
    }
}

/// The values that the senders send in a run, in the order in which they
/// reach the queue.
pub open spec fn sent<T>(trace: Seq<Event<T>>) -> Seq<T>
    decreases trace.len(),
{
    if trace.len() == 0 {
        Seq::empty()
    } else {
        sent(trace.drop_last()) + trace.last().sends()
    }
}

/// How many times a sender is cloned in a run.
pub open spec fn clones<T>(trace: Seq<Event<T>>) -> nat
    decreases trace.len(),
{
    if trace.len() == 0 {
        0
    } else if trace.last() is CloneSender {
        clones(trace.drop_last()) + 1
    } else {
        clones(trace.drop_last())
    }
}

/// How many times a sender is dropped in a run.
pub open spec fn drops<T>(trace: Seq<Event<T>>) -> nat
    decreases trace.len(),
{
    if trace.len() == 0 {
        0
    } else if trace.last() is DropSender {
        drops(trace.drop_last()) + 1
    } else {
        drops(trace.drop_last())
    }
}

/// One event neither loses nor invents a value: what it hands out, followed
/// by what is pending after it, is what was pending before it, followed by
/// what it sends.
pub proof fn lemma_step_keeps_values<T>(before: Model<T>, event: Event<T>)
    requires
        before.enabled(event),
    ensures
        match before.output(event) {
            Some(value) => seq![value] + before.step(event).pending(),
            None => before.step(event).pending(),
        } == before.pending() + event.sends(),
{
    let after = before.step(event);
    match event {
        Event::Send(value) => {
            assert(after.pending() =~= before.pending() + seq![value]);
        },
        Event::SendMany(values) => {
            assert(after.pending() =~= before.pending() + values);
        },
        Event::CloneSender => {
            assert(after.pending() =~= before.pending() + Seq::<T>::empty());
        },
        Event::DropSender => {
            assert(after.pending() =~= before.pending() + Seq::<T>::empty());
        },
        Event::Recv => {
            match before.received() {
                Some(value) => {
                    assert(seq![value] + after.pending() =~= before.pending() + Seq::<T>::empty());
                },
                None => {
                    assert(after.pending() =~= before.pending() + Seq::<T>::empty());
                },
            }
        },
    }
}

/// No loss, no repetition, no reordering: in every run, the values delivered
/// followed by the values still pending are the values that were pending at
/// the start followed by the values sent, in that order.
pub proof fn lemma_nothing_lost<T>(start: Model<T>, trace: Seq<Event<T>>)
    requires
        valid(start, trace),
    ensures
        delivered(start, trace) + run(start, trace).pending() == start.pending() + sent(trace),
    decreases trace.len(),
{
    if trace.len() == 0 {
        assert(delivered(start, trace) + run(start, trace).pending() =~= start.pending() + sent(
            trace,
        ));
    } else {
        let earlier = trace.drop_last();
        let event = trace.last();
        let before = run(start, earlier);
        lemma_nothing_lost(start, earlier);
        lemma_step_keeps_values(before, event);
        let after = before.step(event);
        match before.output(event) {
            Some(value) => {
                assert(delivered(start, trace) + after.pending() =~= delivered(start, earlier) + (
                seq![value] + after.pending()));
            },
            None => {},
        }
        assert(delivered(start, earlier) + (before.pending() + event.sends()) =~= (delivered(
            start,
            earlier,
        ) + before.pending()) + event.sends());
        assert((start.pending() + sent(earlier)) + event.sends() =~= start.pending() + sent(trace));
    }
}

/// A receive returns `None` only on a channel that has ended, and leaves it
/// as it is.
pub proof fn lemma_end_means_closed<T>(channel: Model<T>)
    requires
        channel.enabled(Event::Recv),
        channel.received() is None,
    ensures
        channel.closed(),
        channel.after_recv() == channel,
{
    assert(channel.after_recv().buffer =~= channel.buffer);
    assert(channel.after_recv().shared.queue =~= channel.shared.queue);
}

/// No loss: when the receiver of a new channel sees the end, it has been
/// handed every value that was ever sent, each once and in its turn.
pub proof fn lemma_all_delivered_at_end<T>(trace: Seq<Event<T>>)
    requires
        valid(Model::<T>::fresh(), trace),
        run(Model::<T>::fresh(), trace).enabled(Event::Recv),
        run(Model::<T>::fresh(), trace).received() is None,
    ensures
        delivered(Model::<T>::fresh(), trace) == sent(trace),
{
    let start = Model::<T>::fresh();
    lemma_nothing_lost(start, trace);
    lemma_end_means_closed(run(start, trace));
    assert(delivered(start, trace) + run(start, trace).pending() =~= delivered(start, trace));
    assert(start.pending() + sent(trace) =~= sent(trace));
}

/// First in, first out: at every point of a run on a new channel, the
/// values delivered so far are the first of the values sent so far. The
/// same holds of the values of any one sender, whatever marks them as its
/// own: those delivered are the first of those it sent, in its order.
pub proof fn lemma_fifo<T>(trace: Seq<Event<T>>, own: spec_fn(T) -> bool)
    requires
        valid(Model::<T>::fresh(), trace),
    ensures
        delivered(Model::<T>::fresh(), trace).is_prefix_of(sent(trace)),
        delivered(Model::<T>::fresh(), trace).filter(own).is_prefix_of(sent(trace).filter(own)),
{
    let start = Model::<T>::fresh();
    let got = delivered(start, trace);
    let left = run(start, trace).pending();
    lemma_nothing_lost(start, trace);
    assert(start.pending() + sent(trace) =~= sent(trace));
    assert(got + left == sent(trace));
    assert(got.is_prefix_of(got + left));
    Seq::filter_distributes_over_add(got, left, own);
    assert(got.filter(own).is_prefix_of(got.filter(own) + left.filter(own)));
}

/// No way back: once no sender is left, none comes again. All that can
/// still happen is that the receiver takes what is pending.
pub proof fn lemma_no_new_sender<T>(start: Model<T>, trace: Seq<Event<T>>)
    requires
        start.shared.disconnected(),
        valid(start, trace),
    ensures
        run(start, trace).shared.disconnected(),
        forall|i: int| 0 <= i < trace.len() ==> #[trigger] trace[i] is Recv,
        sent(trace) == Seq::<T>::empty(),
    decreases trace.len(),
{
    if trace.len() > 0 {
        let earlier = trace.drop_last();
        lemma_no_new_sender(start, earlier);
        assert(trace.last() is Recv);
        assert forall|i: int| 0 <= i < trace.len() implies #[trigger] trace[i] is Recv by {
            if i < earlier.len() {
                assert(earlier[i] is Recv);
            }
        }
        assert(sent(trace) =~= Seq::<T>::empty());
    }
}

/// Closure is for good: on a channel that has ended nothing but a receive
/// can happen, every receive returns `None`, and the channel stays as it
/// is.
pub proof fn lemma_closed_stays_closed<T>(start: Model<T>, trace: Seq<Event<T>>)
    requires
        start.closed(),
        valid(start, trace),
    ensures
        run(start, trace) == start,
        delivered(start, trace) == Seq::<T>::empty(),
        forall|i: int| 0 <= i < trace.len() ==> #[trigger] trace[i] is Recv,
    decreases trace.len(),
{
    if trace.len() > 0 {
        let earlier = trace.drop_last();
        lemma_closed_stays_closed(start, earlier);
        assert(start.enabled(trace.last()));
        assert(trace.last() is Recv);
        assert(start.received() is None);
        lemma_end_means_closed(start);
        assert forall|i: int| 0 <= i < trace.len() implies #[trigger] trace[i] is Recv by {
            if i < earlier.len() {
                assert(earlier[i] is Recv);
            }
        }
    }
}

/// The count of senders is the count of live handles: after a run on a new
/// channel it is one, plus the clones, minus the drops.
pub proof fn lemma_sender_count<T>(trace: Seq<Event<T>>)
    requires
        valid(Model::<T>::fresh(), trace),
    ensures
        drops(trace) <= 1 + clones(trace),
        run(Model::<T>::fresh(), trace).shared.senders == 1 + clones(trace) - drops(trace),
    decreases trace.len(),
{
    if trace.len() > 0 {
        lemma_sender_count(trace.drop_last());
    }
}

/// The end is seen if and only if no sender is left: with nothing pending,
/// a receive returns `None` where the count of senders is zero, and waits
/// where it is not.
pub proof fn lemma_end_iff_no_sender<T>(channel: Model<T>)
    requires
        channel.pending().len() == 0,
    ensures
        channel.enabled(Event::Recv) <==> channel.shared.senders == 0,
        channel.enabled(Event::Recv) ==> channel.received() is None,
{
}

/// One step does not depend on how the pending values are split between the
/// buffer and the queue.
pub proof fn lemma_step_ignores_buffer<T>(one: Model<T>, other: Model<T>, event: Event<T>)
    requires
        one.pending() == other.pending(),
        one.shared.senders == other.shared.senders,
    ensures
        one.enabled(event) == other.enabled(event),
        one.enabled(event) ==> {
            &&& one.output(event) == other.output(event)
            &&& one.step(event).pending() == other.step(event).pending()
            &&& one.step(event).shared.senders == other.step(event).shared.senders
        },
{
    if one.enabled(event) {
        lemma_step_keeps_values(one, event);
        lemma_step_keeps_values(other, event);
        match event {
            Event::Recv => {
                if one.pending().len() > 0 {
                    assert(one.received() == Some(one.pending()[0]));
                    assert(other.received() == Some(other.pending()[0]));
                    assert(one.step(event).pending() =~= one.pending().skip(1));
                    assert(other.step(event).pending() =~= other.pending().skip(1));
                }
            },
            Event::Send(value) => {
                assert(one.step(event).pending() =~= one.pending().push(value));
                assert(other.step(event).pending() =~= other.pending().push(value));
            },
            Event::SendMany(values) => {
                assert(one.step(event).pending() =~= one.pending() + values);
                assert(other.step(event).pending() =~= other.pending() + values);
            },
            _ => {},
        }
    }
}

/// The buffer cannot be told from outside: two channels with the same
/// pending values and the same count of senders, however the values are
/// split between buffer and queue, allow the same runs and deliver the same
/// values in them. This holds in particular of a channel and the same
/// channel without a buffer.
pub proof fn lemma_buffer_transparent<T>(one: Model<T>, other: Model<T>, trace: Seq<Event<T>>)
    requires
        one.pending() == other.pending(),
        one.shared.senders == other.shared.senders,
    ensures
        valid(one, trace) == valid(other, trace),
        valid(one, trace) ==> {
            &&& delivered(one, trace) == delivered(other, trace)
            &&& run(one, trace).pending() == run(other, trace).pending()
            &&& run(one, trace).shared.senders == run(other, trace).shared.senders
        },
    decreases trace.len(),
{
    if trace.len() > 0 {
        let earlier = trace.drop_last();
        lemma_buffer_transparent(one, other, earlier);
        if valid(one, earlier) {
            lemma_step_ignores_buffer(run(one, earlier), run(other, earlier), trace.last());
        }
    }
}

/// The channel after a run of events in which the receiver uses no buffer:
/// it takes the front value and leaves everything else in the queue.
pub open spec fn plain_run<T>(start: Model<T>, trace: Seq<Event<T>>) -> Model<T>
    decreases trace.len(),
{
    if trace.len() == 0 {
        start.unbuffered()
    } else {
        plain_run(start, trace.drop_last()).step(trace.last()).unbuffered()
    }
}

/// The values that a receiver without a buffer gets in a run.
pub open spec fn plain_delivered<T>(start: Model<T>, trace: Seq<Event<T>>) -> Seq<T>
    decreases trace.len(),
{
    if trace.len() == 0 {
        Seq::empty()
    } else {
        let before = plain_delivered(start, trace.drop_last());
        match plain_run(start, trace.drop_last()).output(trace.last()) {
            Some(value) => before.push(value),
            None => before,
        }
    }
}

/// The buffer is an optimisation and no more: a receiver that never uses
/// it is handed the same values in every run, and leaves the same values
/// pending.
pub proof fn lemma_buffer_is_optional<T>(start: Model<T>, trace: Seq<Event<T>>)
    requires
        valid(start, trace),
    ensures
        plain_delivered(start, trace) == delivered(start, trace),
        plain_run(start, trace).pending() == run(start, trace).pending(),
        plain_run(start, trace).shared.senders == run(start, trace).shared.senders,
        plain_run(start, trace).buffer.len() == 0,
    decreases trace.len(),
{
    if trace.len() == 0 {
        assert(start.unbuffered().pending() =~= start.pending());
    } else {
        let earlier = trace.drop_last();
        lemma_buffer_is_optional(start, earlier);
        let plain = plain_run(start, earlier);
        lemma_step_ignores_buffer(plain, run(start, earlier), trace.last());
        assert(plain.step(trace.last()).unbuffered().pending() =~= plain.step(
            trace.last(),
        ).pending());
    }
}

} // verus!
