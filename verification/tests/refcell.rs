use tinystd::refcell::{RefCell, RefState};

#[test]
fn shared_borrows_count_up_and_down() {
    let state = RefState::Unshared;
    let one = state.share();
    assert_eq!(one, Some(RefState::Shared(1)));
    let two = RefState::Shared(1).share();
    assert_eq!(two, Some(RefState::Shared(2)));
    assert_eq!(RefState::Shared(2).release(), RefState::Shared(1));
    assert_eq!(RefState::Shared(1).release(), RefState::Unshared);
}

#[test]
fn exclusive_borrow_needs_an_unshared_cell() {
    assert_eq!(RefState::Unshared.lock(), Some(RefState::Exclusive));
    assert_eq!(RefState::Shared(1).lock(), None);
    assert_eq!(RefState::Exclusive.lock(), None);
}

#[test]
fn nothing_is_shared_beside_an_exclusive_borrow() {
    assert_eq!(RefState::Exclusive.share(), None);
}

#[test]
fn cell_shares_with_many() {
    let cell = RefCell::from(5);
    let first = cell.borrow();
    let second = cell.borrow();
    assert!(first.is_some());
    assert!(second.is_some());
    assert!(cell.borrow_mut().is_none());
}

#[test]
fn cell_takes_shared_borrows_back() {
    let cell = RefCell::from(String::from("value"));
    let first = cell.borrow();
    let second = cell.borrow();
    drop(first);
    assert!(cell.borrow_mut().is_none());
    drop(second);
    assert!(cell.borrow_mut().is_some());
}

#[test]
fn cell_lends_exclusively_to_one() {
    let cell = RefCell::from(5);
    let exclusive = cell.borrow_mut();
    assert!(exclusive.is_some());
    assert!(cell.borrow().is_none());
    assert!(cell.borrow_mut().is_none());
}

#[test]
fn exclusive_borrow_is_not_given_back() {
    let cell = RefCell::from(5);
    drop(cell.borrow_mut());
    assert!(cell.borrow().is_none());
    assert!(cell.borrow_mut().is_none());
}

#[test]
fn a_refused_borrow_changes_nothing() {
    let cell = RefCell::from(5);
    let shared = cell.borrow();
    assert!(cell.borrow_mut().is_none());
    assert!(cell.borrow_mut().is_none());
    drop(shared);
    assert!(cell.borrow_mut().is_some());
}

#[test]
fn shared_borrows_stop_at_the_largest_count() {
    assert_eq!(RefState::Unshared.try_share(), Some(RefState::Shared(1)));
    assert_eq!(RefState::Shared(7).try_share(), Some(RefState::Shared(8)));
    assert_eq!(
        RefState::Shared(usize::MAX - 1).try_share(),
        Some(RefState::Shared(usize::MAX))
    );
    assert_eq!(RefState::Shared(usize::MAX).try_share(), None);
    assert_eq!(RefState::Exclusive.try_share(), None);
}
