//! The lock and the condition variable of the standard library, as far as
//! the channel uses them.
//!
//! Nothing here is proved. What a lock guards can change whenever the lock
//! is free, so these contracts say nothing of the guarded state, with one
//! exception: a wait that has ended has seen a state that ended it.
//!
//! A lock is poisoned when a thread panics while it holds the lock. Under
//! this lock run only the steps of [`Inner`], which are proved not to panic
//! and run no code of the values' type, so this lock is never poisoned and
//! what is done about poison here never happens.

use crate::channel::state::{Inner, State};
use std::collections::VecDeque;
use std::sync::{Condvar, Mutex, MutexGuard};
use vstd::prelude::*;

verus! {

/// `std::sync::Mutex`, a lock around a value. To Verus it is a name for
/// the lock, not for what the lock guards at the moment.
#[verifier::external_type_specification]
#[verifier::external_body]
#[verifier::reject_recursive_types(V)]
pub struct ExMutex<V: ?Sized>(Mutex<V>);

/// `std::sync::MutexGuard`, the proof that the lock is held, through which
/// the guarded value is reached.
#[verifier::external_type_specification]
#[verifier::external_body]
#[verifier::reject_recursive_types(V)]
pub struct ExMutexGuard<'a, V: ?Sized + 'a>(MutexGuard<'a, V>);

/// `std::sync::Condvar`, on which a thread sleeps until another one
/// notifies it.
#[verifier::external_type_specification]
#[verifier::external_body]
pub struct ExCondvar(Condvar);

/// `Mutex::new` wraps a value in a lock that nobody holds.
pub assume_specification<V>[ Mutex::<V>::new ](value: V) -> Mutex<V>;

/// `Condvar::new` makes a condition variable on which nobody waits.
pub assume_specification[ Condvar::new ]() -> Condvar;

/// What a receiver with an empty buffer may come back with: the front
/// `value` and the `rest` of some ready state.
pub open spec fn taken_from_ready<T>(value: Option<T>, rest: Seq<T>) -> bool {
    exists|state: State<T>| #[trigger] state.ready() && value == state.front() && rest == state.rest()
}

/// `Mutex::lock` blocks until the lock is free and returns its guard; the
/// lock is released when the guard goes out of scope.
///
/// A sender takes the lock when it is dropped, and a destructor must not
/// unwind: the guard is taken out of a poison error rather than unwrapped.
#[verifier::external_body]
pub(crate) fn lock<'a, T>(mutex: &'a Mutex<Inner<T>>) -> (guard: MutexGuard<'a, Inner<T>>)
    opens_invariants none
    no_unwind
{
    match mutex.lock() {
        Ok(guard) => guard,
        Err(poisoned) => poisoned.into_inner(),
    }
}

/// `DerefMut::deref_mut` of a guard gives access to the guarded state for
/// as long as the guard is borrowed. What is found there is whatever the
/// last holder left.
#[verifier::external_body]
pub(crate) fn guarded<'a, 'b, T>(guard: &'a mut MutexGuard<'b, Inner<T>>) -> (inner: &'a mut Inner<T>)
    opens_invariants none
    no_unwind
{
    &mut **guard
}

/// `Condvar::notify_one` wakes one thread that waits on the condition
/// variable, if there is any.
#[verifier::external_body]
pub(crate) fn notify_one(available: &Condvar)
    opens_invariants none
    no_unwind
{
    available.notify_one()
}

/// `Condvar::wait_while` releases the lock and sleeps until it is notified,
/// then takes the lock again and asks the condition; it goes on so while the
/// condition answers `true`, and returns the guard once it answers `false`.
///
/// The condition here is `Inner::poll`, which leaves everything as it was
/// when it answers `true`. So what comes back is what `poll` made of the one
/// state on which it answered `false`, and such a state is ready. This does
/// not return while the queue is empty and a sender is left, and it panics
/// on a poisoned lock.
#[verifier::external_body]
pub(crate) fn wait_poll<'a, T>(
    available: &Condvar,
    guard: MutexGuard<'a, Inner<T>>,
    buffer: &mut VecDeque<T>,
) -> (out: (MutexGuard<'a, Inner<T>>, Option<T>))
    requires
        old(buffer)@.len() == 0,
    ensures
        taken_from_ready(out.1, final(buffer)@),
{
    let mut slot = None;
    let guard = available.wait_while(guard, |inner| inner.poll(buffer, &mut slot)).unwrap();
    (guard, slot)
}

} // verus!
