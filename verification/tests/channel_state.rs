use std::collections::VecDeque;

use tinystd::channel::collect;
use tinystd::channel::state::Inner;

#[test]
fn new_state_has_one_sender_and_no_value() {
    let inner = Inner::<u8>::new();
    assert_eq!(inner.senders(), 1);
    assert_eq!(inner.len(), 0);
}

#[test]
fn poll_takes_the_front_and_moves_the_rest() {
    let mut inner = Inner::new();
    inner.push(1);
    inner.push(2);
    inner.push(3);
    let mut buffer = VecDeque::new();
    let mut slot = None;
    assert_eq!(inner.poll(&mut buffer, &mut slot), false);
    assert_eq!(slot, Some(1));
    assert_eq!(buffer, VecDeque::from(vec![2, 3]));
    assert_eq!(inner.len(), 0);
    assert_eq!(inner.senders(), 1);
}

#[test]
fn poll_takes_a_single_value() {
    let mut inner = Inner::new();
    inner.push('x');
    let mut buffer = VecDeque::new();
    let mut slot = None;
    assert_eq!(inner.poll(&mut buffer, &mut slot), false);
    assert_eq!(slot, Some('x'));
    assert_eq!(buffer.len(), 0);
    assert_eq!(inner.len(), 0);
}

#[test]
fn poll_waits_while_a_sender_is_left() {
    let mut inner = Inner::<i32>::new();
    let mut buffer = VecDeque::new();
    let mut slot = Some(9);
    assert_eq!(inner.poll(&mut buffer, &mut slot), true);
    assert_eq!(slot, Some(9));
    assert_eq!(buffer.len(), 0);
    assert_eq!(inner.senders(), 1);
}

#[test]
fn poll_sees_the_end() {
    let mut inner = Inner::<i32>::new();
    assert_eq!(inner.remove_sender(), true);
    let mut buffer = VecDeque::new();
    let mut slot = Some(9);
    assert_eq!(inner.poll(&mut buffer, &mut slot), false);
    assert_eq!(slot, None);
    assert_eq!(buffer.len(), 0);
    // and again
    assert_eq!(inner.poll(&mut buffer, &mut slot), false);
    assert_eq!(slot, None);
}

#[test]
fn poll_hands_out_what_is_queued_after_the_last_sender() {
    let mut inner = Inner::new();
    inner.push(5);
    assert_eq!(inner.remove_sender(), true);
    let mut buffer = VecDeque::new();
    let mut slot = None;
    assert_eq!(inner.poll(&mut buffer, &mut slot), false);
    assert_eq!(slot, Some(5));
    assert_eq!(inner.poll(&mut buffer, &mut slot), false);
    assert_eq!(slot, None);
}

#[test]
fn senders_are_counted() {
    let mut inner = Inner::<()>::new();
    inner.add_sender();
    inner.add_sender();
    inner.add_sender();
    assert_eq!(inner.senders(), 4);
    assert_eq!(inner.remove_sender(), false);
    assert_eq!(inner.remove_sender(), false);
    // one sender, three clones, two drops
    assert_eq!(inner.senders(), 2);
    assert_eq!(inner.remove_sender(), false);
    assert_eq!(inner.remove_sender(), true);
    assert_eq!(inner.senders(), 0);
}

#[test]
fn append_moves_a_batch_behind_the_queue() {
    let mut inner = Inner::new();
    inner.push(1);
    let mut batch = collect(vec![2, 3]);
    assert_eq!(batch, VecDeque::from(vec![2, 3]));
    inner.append(&mut batch);
    assert_eq!(batch.len(), 0);
    assert_eq!(inner.len(), 3);
    let mut buffer = VecDeque::new();
    let mut slot = None;
    assert_eq!(inner.poll(&mut buffer, &mut slot), false);
    assert_eq!(slot, Some(1));
    assert_eq!(buffer, VecDeque::from(vec![2, 3]));
}
