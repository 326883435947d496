//! A reference cell: a container that checks the borrow rules when the
//! program runs.
//!
//! A cell hands out either any number of shared references or one
//! exclusive reference. It keeps a [`RefState`] and asks it before each
//! borrow. The rules by which the state changes are stated and proved on
//! [`RefState`]; the state of a cell at a given moment is behind interior
//! mutability, out of sight of any contract.
//!
//! [`Ref`] and [`RefMut`] stand for a borrow. To reach the value through
//! one takes a raw pointer out of [`RefCell::value`], which is left to the
//! code that uses this crate.

use std::cell::{Cell, UnsafeCell};
use vstd::prelude::*;

verus! {

/// How the value of a cell is lent out at the moment.
#[derive(Copy, Clone, Debug, PartialEq, Eq, Structural)]
pub enum RefState {
    /// No reference is out.
    Unshared,
    /// One exclusive reference is out.
    Exclusive,
    /// This many shared references are out.
    Shared(usize),
}

impl RefState {
    /// The number of shared references that are out.
    pub open spec fn readers(self) -> nat {
        match self {
            RefState::Shared(n) => n as nat,
            _ => 0,
        }
    }

    /// The state after a shared borrow, where one is granted: never beside
    /// an exclusive reference.
    pub open spec fn spec_share(self) -> Option<RefState> {
        match self {
            RefState::Shared(n) => Some(RefState::Shared((n + 1) as usize)),
            RefState::Unshared => Some(RefState::Shared(1)),
            RefState::Exclusive => None,
        }
    }

    /// The state after an exclusive borrow, where one is granted: only
    /// while no reference is out.
    pub open spec fn spec_lock(self) -> Option<RefState> {
        match self {
            RefState::Unshared => Some(RefState::Exclusive),
            _ => None,
        }
    }

    /// The state after a shared reference has been given back.
    pub open spec fn spec_release(self) -> RefState
        recommends
            self.readers() >= 1,
    {
        match self {
            RefState::Shared(n) => if n == 1 {
                RefState::Unshared
            } else {
                RefState::Shared((n - 1) as usize)
            },
            _ => self,
        }
    }

    /// Asks for a shared reference. The answer is the state to go on with,
    /// or `None` where the borrow is refused and the state stays.
    pub fn share(self) -> (next: Option<RefState>)
        requires
            self.readers() < usize::MAX,
        ensures
            next == self.spec_share(),
            next is Some <==> self != RefState::Exclusive,
            next matches Some(state) ==> state.readers() == self.readers() + 1,
    {
        match self {
            RefState::Shared(n) => Some(RefState::Shared(n + 1)),
            RefState::Unshared => Some(RefState::Shared(1)),
            RefState::Exclusive => None,
        }
    }

    /// Asks for an exclusive reference. The answer is the state to go on
    /// with, or `None` where the borrow is refused and the state stays.
    pub fn lock(self) -> (next: Option<RefState>)
        ensures
            next == self.spec_lock(),
            next is Some <==> self == RefState::Unshared,
    {
        if let RefState::Unshared = self {
            Some(RefState::Exclusive)
        } else {
            None
        }
    }

    /// Gives one shared reference back.
    pub fn release(self) -> (next: RefState)
        requires
            self.readers() >= 1,
        ensures
            next == self.spec_release(),
            next.readers() == self.readers() - 1,
            next != RefState::Exclusive,
        opens_invariants none
        no_unwind
    {
        match self {
            RefState::Shared(n) => if n == 1 {
                RefState::Unshared
            } else {
                RefState::Shared(n - 1)
            },
            RefState::Unshared | RefState::Exclusive => unreached(),
        }
    }
}

/// `std::cell::Cell`, a value that can be replaced through a shared
/// reference. To Verus it is a name for the cell, not for what it holds at
/// the moment.
#[verifier::external_type_specification]
#[verifier::external_body]
#[verifier::reject_recursive_types(V)]
pub struct ExCell<V: ?Sized>(Cell<V>);

/// `std::cell::UnsafeCell`, the place of a value that may change behind a
/// shared reference.
#[verifier::external_type_specification]
#[verifier::external_body]
#[verifier::reject_recursive_types(V)]
pub struct ExUnsafeCell<V: ?Sized>(UnsafeCell<V>);

/// `Cell::new` makes a cell that holds `value`.
pub assume_specification<V>[ Cell::<V>::new ](value: V) -> Cell<V>;

/// `UnsafeCell::new` makes a cell that holds `value`.
pub assume_specification<V>[ UnsafeCell::<V>::new ](value: V) -> UnsafeCell<V>;

/// `Cell::get` returns a copy of what the cell holds: whatever was last set.
#[verifier::external_body]
fn state_of(cell: &Cell<RefState>) -> (state: RefState)
    opens_invariants none
    no_unwind
{
    cell.get()
}

/// `Cell::set` replaces what the cell holds.
#[verifier::external_body]
fn set_state(cell: &Cell<RefState>, state: RefState)
    opens_invariants none
    no_unwind
{
    cell.set(state)
}

/// A container for `T` that is **not** thread-safe.
#[verifier::reject_recursive_types(T)]
pub struct RefCell<T> {
    /// The value, behind the core type for interior mutability.
    value: UnsafeCell<T>,
    /// How the value is lent out; in a `Cell` so that `&self` can change it.
    state: Cell<RefState>,
}

/// A shared borrow of the value of a cell. Dropping it gives the borrow
/// back.
#[verifier::reject_recursive_types(T)]
pub struct Ref<'refcell, T> {
    refcell: &'refcell RefCell<T>,
}

/// An exclusive borrow of the value of a cell. It is not given back: once a
/// cell has lent its value out exclusively, it refuses every further borrow.
#[verifier::reject_recursive_types(T)]
pub struct RefMut<'refcell, T> {
    refcell: &'refcell RefCell<T>,
}

impl<T> RefCell<T> {
    /// Wraps `value` in a reference cell, with no reference out.
    pub fn from(value: T) -> (cell: Self) {
        RefCell { value: UnsafeCell::new(value), state: Cell::new(RefState::Unshared) }
    }

    /// The place of the value.
    pub closed spec fn place(&self) -> UnsafeCell<T> {
        self.value
    }

    /// The place of the value. Who reads or writes through it has to hold a
    /// borrow of this cell that allows it.
    pub fn value(&self) -> (place: &UnsafeCell<T>)
        ensures
            *place == self.place(),
    {
        &self.value
    }

    /// Asks for a shared borrow. It is granted, and the cell's state is
    /// advanced, exactly where [`RefState::try_share`] answers `Some` for
    /// the state that the cell is found in.
    pub fn borrow(&self) -> (granted: Option<Ref<'_, T>>)
        ensures
            granted matches Some(shared) ==> shared.cell() == self,
    {
        match state_of(&self.state).try_share() {
            Some(next) => {
                set_state(&self.state, next);
                Some(Ref { refcell: self })
            },
            None => None,
        }
    }

    /// Asks for an exclusive borrow. It is granted, and the cell's state is
    /// advanced, exactly where [`RefState::lock`] answers `Some` for the
    /// state that the cell is found in.
    ///
    /// The state is read from the cell when the call is made, and a shared
    /// reference to a cell says nothing of what the cell holds. So the
    /// contracts of `borrow` and `borrow_mut` cannot name the state that
    /// decides. They say whose borrow the answer is; the rules of
    /// [`RefState`], which take the state as an argument, say which answer
    /// each state gets.
    pub fn borrow_mut(&self) -> (granted: Option<RefMut<'_, T>>)
        ensures
            granted matches Some(exclusive) ==> exclusive.cell() == self,
    {
        match state_of(&self.state).lock() {
            Some(next) => {
                set_state(&self.state, next);
                Some(RefMut { refcell: self })
            },
            None => None,
        }
    }
}

impl<'refcell, T> Ref<'refcell, T> {
    /// The cell whose value is borrowed.
    pub closed spec fn cell(&self) -> &RefCell<T> {
        self.refcell
    }

    /// The cell whose value is borrowed.
    pub fn refcell(&self) -> (cell: &'refcell RefCell<T>)
        ensures
            cell == self.cell(),
    {
        self.refcell
    }
}

impl<T> Drop for Ref<'_, T> {
    /// Gives the borrow back, as [`RefState::release`] says.
    fn drop(&mut self)
        opens_invariants none
        no_unwind
    {
        let state = state_of(&self.refcell.state);
        match state {
            RefState::Shared(n) => {
                if n >= 1 {
                    set_state(&self.refcell.state, state.release());
                }
            },
            RefState::Unshared | RefState::Exclusive => {},
        }
    }
}

impl<'refcell, T> RefMut<'refcell, T> {
    /// The cell whose value is borrowed.
    pub closed spec fn cell(&self) -> &RefCell<T> {
        self.refcell
    }

    /// The cell whose value is borrowed.
    pub fn refcell(&self) -> (cell: &'refcell RefCell<T>)
        ensures
            cell == self.cell(),
    {
        self.refcell
    }
}

impl RefState {
    /// The state after a shared borrow, where one is granted: never beside
    /// an exclusive reference, and never where the count of shared
    /// references has reached `usize::MAX`.
    pub open spec fn spec_try_share(self) -> Option<RefState> {
        if self.readers() < usize::MAX {
            self.spec_share()
        } else {
            None
        }
    }

    /// Asks for a shared reference, whatever the state. The answer is the
    /// state to go on with, or `None` where the borrow is refused and the
    /// state stays: beside an exclusive reference, and where one more
    /// shared reference could not be counted.
    pub fn try_share(self) -> (next: Option<RefState>)
        ensures
            next == self.spec_try_share(),
            next is Some <==> self != RefState::Exclusive && self.readers() < usize::MAX,
            next matches Some(state) ==> state.readers() == self.readers() + 1,
    {
        let full = match self {
            RefState::Shared(n) => n == usize::MAX,
            _ => false,
        };
        if full {
            None
        } else {
            self.share()
        }
    }
}

/// A shared borrow that is given back leaves the state as it was.
pub proof fn lemma_share_release(state: RefState)
    requires
        state.readers() < usize::MAX,
        state != RefState::Exclusive,
        state != RefState::Shared(0),
    ensures
        state.spec_share() is Some,
        state.spec_share().unwrap().spec_release() == state,
{
}

} // verus!
