use tinystd::channel::channel;

#[test]
fn send_recv() {
    let (mut tx, mut rx) = channel();
    let x = 10;
    tx.send(x);
    assert_eq!(rx.recv(), Some(x));
}

#[test]
fn send_on_close() {
    let (tx, mut rx) = channel::<()>();
    drop(tx);
    assert_eq!(rx.recv(), None);
}

#[test]
fn recv_on_close() {
    let (tx, mut rx) = channel::<()>();
    drop(tx);
    assert_eq!(rx.recv(), None);
}

#[test]
fn last_sender_closes() {
    let (mut tx, mut rx) = channel();
    let other = tx.clone();
    drop(other);
    tx.send(1);
    assert_eq!(rx.recv(), Some(1));
    drop(tx);
    assert_eq!(rx.recv(), None);
}

#[test]
fn batch_keeps_order() {
    let (mut tx, mut rx) = channel();
    tx.send_many(vec![1, 2, 3]);
    assert_eq!(rx.recv(), Some(1));
    assert_eq!(rx.recv(), Some(2));
    assert_eq!(rx.recv(), Some(3));
}

#[test]
fn every_value_arrives_once_and_in_order() {
    let (mut tx, mut rx) = channel();
    let mut other = tx.clone();
    tx.send(1);
    other.send(2);
    tx.send_many(vec![3, 4, 5]);
    other.send_many(vec![]);
    other.send(6);
    drop(tx);
    drop(other);
    let mut got = Vec::new();
    while let Some(value) = rx.recv() {
        got.push(value);
    }
    assert_eq!(got, vec![1, 2, 3, 4, 5, 6]);
}

#[test]
fn the_end_is_for_good() {
    let (mut tx, mut rx) = channel();
    tx.send('a');
    drop(tx);
    assert_eq!(rx.recv(), Some('a'));
    assert_eq!(rx.recv(), None);
    assert_eq!(rx.recv(), None);
    assert_eq!(rx.recv(), None);
}

#[test]
fn queued_values_outlive_their_senders() {
    let (mut tx, mut rx) = channel();
    tx.send_many(vec![1, 2]);
    drop(tx);
    assert_eq!(rx.recv(), Some(1));
    assert_eq!(rx.recv(), Some(2));
    assert_eq!(rx.recv(), None);
}

#[test]
fn channel_stays_open_while_a_sender_lives() {
    let (tx, mut rx) = channel();
    let clones: Vec<_> = (0..3).map(|_| tx.clone()).collect();
    drop(tx);
    let mut clones = clones.into_iter();
    let first = clones.next().unwrap();
    let second = clones.next().unwrap();
    let mut third = clones.next().unwrap();
    drop(first);
    drop(second);
    // three clones and three drops so far: one sender is left
    third.send(7);
    assert_eq!(rx.recv(), Some(7));
    drop(third);
    assert_eq!(rx.recv(), None);
}

#[test]
fn buffer_changes_nothing() {
    // a burst before the first receive moves the rest of the queue to the
    // receiver's buffer
    let (mut tx, mut rx) = channel();
    for value in 0..5 {
        tx.send(value);
    }
    let mut burst = Vec::new();
    for _ in 0..5 {
        burst.push(rx.recv());
    }
    // one send for each receive never fills the buffer
    let (mut tx, mut rx) = channel();
    let mut single = Vec::new();
    for value in 0..5 {
        tx.send(value);
        single.push(rx.recv());
    }
    assert_eq!(burst, single);
    assert_eq!(burst, vec![Some(0), Some(1), Some(2), Some(3), Some(4)]);
}

#[test]
fn buffered_values_come_before_queued_ones() {
    let (mut tx, mut rx) = channel();
    tx.send_many(vec![1, 2, 3]);
    assert_eq!(rx.recv(), Some(1));
    // 2 and 3 now wait in the receiver's buffer
    tx.send(4);
    assert_eq!(rx.recv(), Some(2));
    assert_eq!(rx.recv(), Some(3));
    assert_eq!(rx.recv(), Some(4));
    drop(tx);
    assert_eq!(rx.recv(), None);
}

#[test]
fn values_are_moved_through() {
    let (mut tx, mut rx) = channel::<String>();
    tx.send(String::from("one"));
    tx.send(String::from("two"));
    assert_eq!(rx.recv().as_deref(), Some("one"));
    assert_eq!(rx.recv().as_deref(), Some("two"));
}
