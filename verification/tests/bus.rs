use channel::{Backoff, BroadcastStep, Bus, TryRecvError};

#[test]
/// Tests basic functionality of
/// broadcasting a message and receiving it with two receivers.
fn it_works() {
    let mut c = Bus::new(10);
    let mut r1 = c.add_rx();
    let mut r2 = c.add_rx();
    assert_eq!(c.try_broadcast(true), Ok(()));
    assert_eq!(r1.try_recv(&mut c.state), Ok(true));
    assert_eq!(r2.try_recv(&mut c.state), Ok(true));
}

#[test]
/// Nonblocking: Ensures that broadcasting fails when the channel is full.
fn it_fails_when_full() {
    let mut c = Bus::new(1);
    let r1 = c.add_rx();
    assert_eq!(c.try_broadcast(true), Ok(()));
    assert_eq!(c.try_broadcast(false), Err(false));
    r1.leave(&mut c.state);
}

#[test]
/// Tests successful broadcasting after the channel has been emptied.
fn it_succeeds_when_not_full() {
    let mut c = Bus::new(1);
    let mut r1 = c.add_rx();
    assert_eq!(c.try_broadcast(true), Ok(()));
    assert_eq!(c.try_broadcast(false), Err(false));
    assert_eq!(r1.try_recv(&mut c.state), Ok(true));
    assert_eq!(c.try_broadcast(true), Ok(()));
}

#[test]
/// Ensures that attempting to receive from an empty channel results in an error.
fn it_fails_when_empty() {
    let mut c = Bus::<bool>::new(10);
    let mut r1 = c.add_rx();
    assert_eq!(r1.try_recv(&mut c.state), Err(TryRecvError::Empty));
}

#[test]
/// Tests that a message can be successfully read from a full channel.
fn it_reads_when_full() {
    let mut c = Bus::new(1);
    let mut r1 = c.add_rx();
    assert_eq!(c.try_broadcast(true), Ok(()));
    assert_eq!(r1.try_recv(&mut c.state), Ok(true));
}

#[test]
/// Ensures that receivers can detect
/// when the channel has been closed and no more messages will be sent.
fn it_detects_closure() {
    let mut tx = Bus::new(1);
    let mut rx = tx.add_rx();
    assert_eq!(tx.try_broadcast(true), Ok(()));
    assert_eq!(rx.try_recv(&mut tx.state), Ok(true));
    assert_eq!(rx.try_recv(&mut tx.state), Err(TryRecvError::Empty));
    let mut state = tx.close();
    assert_eq!(rx.try_recv(&mut state), Err(TryRecvError::Disconnected));
}

#[test]
/// Tests that messages sent before the channel is closed
/// can still be received after closure.
fn it_recvs_after_close() {
    let mut tx = Bus::new(1);
    let mut rx = tx.add_rx();
    assert_eq!(tx.try_broadcast(true), Ok(()));
    let mut state = tx.close();
    assert_eq!(rx.try_recv(&mut state), Ok(true));
    assert_eq!(rx.try_recv(&mut state), Err(TryRecvError::Disconnected));
}

#[test]
/// Ensures that the channel functions correctly when receivers are dropped (i.e., removed).
fn it_handles_leaves() {
    let mut c = Bus::new(1);
    let mut r1 = c.add_rx();
    let r2 = c.add_rx();
    assert_eq!(c.try_broadcast(true), Ok(()));
    r2.leave(&mut c.state);
    assert_eq!(r1.try_recv(&mut c.state), Ok(true));
    assert_eq!(c.try_broadcast(true), Ok(()));
}

#[test]
/// One writer and one reader that take turns: every message arrives, in order.
fn messages_arrive_in_order() {
    let mut tx = Bus::new(2);
    let mut rx = tx.add_rx();
    let mut received = 0;
    let mut sent = 0;
    while received < 20_000 {
        while sent < 20_000 && tx.try_broadcast(sent) == Ok(()) {
            sent += 1;
        }
        while let Ok(i) = rx.try_recv(&mut tx.state) {
            assert_eq!(i, received);
            received += 1;
        }
    }
    assert_eq!(sent, 20_000);
    let mut state = tx.close();
    assert_eq!(rx.try_recv(&mut state), Err(TryRecvError::Disconnected));
    assert_eq!(rx.try_recv(&mut state), Err(TryRecvError::Disconnected));
}

#[test]
/// Readers at different speeds receive the same messages, each from the time
/// when it joined.
fn readers_are_independent() {
    let mut c = Bus::new(3);
    let mut fast = c.add_rx();
    let mut slow = c.add_rx();
    assert_eq!(c.try_broadcast('a'), Ok(()));
    assert_eq!(fast.try_recv(&mut c.state), Ok('a'));
    assert_eq!(c.try_broadcast('b'), Ok(()));
    let mut late = c.add_rx();
    assert_eq!(c.try_broadcast('c'), Ok(()));
    assert_eq!(c.try_broadcast('d'), Err('d'));
    assert_eq!(fast.try_recv(&mut c.state), Ok('b'));
    assert_eq!(slow.try_recv(&mut c.state), Ok('a'));
    assert_eq!(c.try_broadcast('d'), Ok(()));
    for expected in ['b', 'c', 'd'] {
        assert_eq!(slow.try_recv(&mut c.state), Ok(expected));
    }
    for expected in ['c', 'd'] {
        assert_eq!(fast.try_recv(&mut c.state), Ok(expected));
        assert_eq!(late.try_recv(&mut c.state), Ok(expected));
    }
    assert_eq!(late.try_recv(&mut c.state), Err(TryRecvError::Empty));
}

#[test]
/// A bus takes exactly as many messages as it can hold while nobody reads.
fn it_holds_its_capacity() {
    for capacity in 1..6 {
        let mut c = Bus::new(capacity);
        let mut rx = c.add_rx();
        for i in 0..capacity {
            assert_eq!(c.try_broadcast(i), Ok(()));
        }
        assert_eq!(c.try_broadcast(99), Err(99));
        assert_eq!(rx.try_recv(&mut c.state), Ok(0));
        assert_eq!(c.try_broadcast(99), Ok(()));
        assert_eq!(c.try_broadcast(100), Err(100));
    }
}

#[test]
fn broadcasts_succeed_without_consumers() {
    let mut c = Bus::new(1);
    for i in 0..10 {
        assert_eq!(c.try_broadcast(i), Ok(()));
    }
    let mut rx = c.add_rx();
    assert_eq!(rx.try_recv(&mut c.state), Err(TryRecvError::Empty));
    assert_eq!(c.try_broadcast(10), Ok(()));
    assert_eq!(rx.try_recv(&mut c.state), Ok(10));
}

#[test]
/// A bus that can hold nothing takes messages while nobody listens. With a
/// reader it takes one, which the reader never receives, and is stuck until
/// nobody listens any more.
fn nothing_is_delivered_without_capacity() {
    let mut c = Bus::new(0);
    assert_eq!(c.try_broadcast(1), Ok(()));
    assert_eq!(c.try_broadcast(2), Ok(()));
    let mut rx = c.add_rx();
    assert_eq!(c.try_broadcast(3), Ok(()));
    assert_eq!(rx.try_recv(&mut c.state), Err(TryRecvError::Empty));
    assert_eq!(c.try_broadcast(4), Err(4));
    rx.leave(&mut c.state);
    assert_eq!(c.rx_count(), 0);
    assert_eq!(c.try_broadcast(5), Ok(()));
    assert_eq!(c.readers, 0);
    assert_eq!(c.try_broadcast(6), Ok(()));
}

#[test]
/// One of two readers stays, so a bus that can hold nothing stays stuck.
fn a_stuck_bus_waits_for_the_last_reader_to_leave() {
    let mut c = Bus::new(0);
    let r1 = c.add_rx();
    let r2 = c.add_rx();
    assert_eq!(c.try_broadcast(1), Ok(()));
    r1.leave(&mut c.state);
    assert_eq!(c.try_broadcast(2), Err(2));
    let mut backoff = Backoff::new();
    assert!(matches!(c.broadcast(2, 5, &mut backoff), BroadcastStep::Again(2)));
    r2.leave(&mut c.state);
    assert!(matches!(c.broadcast(2, 5, &mut backoff), BroadcastStep::Sent));
}

#[test]
/// Every seat of a new bus is empty, and there is one more than it can hold
/// messages.
fn a_new_bus_is_empty() {
    let c = Bus::<String>::new(4);
    assert_eq!(c.state.ring.len(), 5);
    assert_eq!(c.state.len, 5);
    assert_eq!(c.rleft, vec![0; 5]);
    for seat in &c.state.ring {
        assert_eq!(seat.state.max, 0);
        assert_eq!(seat.state.val, None);
        assert_eq!(seat.read, 0);
    }
    assert_eq!(c.state.tail, 0);
    assert!(!c.state.closed);
    assert_eq!(c.readers, 0);
    assert!(c.cache.is_empty());
}

#[test]
/// A refused offer comes back, and with a ticket the thread is woken later.
fn an_offer_is_taken_or_handed_back() {
    let mut c = Bus::new(1);
    let mut rx = c.add_rx();
    assert_eq!(c.offer('a', Some(3)), Ok(()));
    assert_eq!(c.offer('b', None), Err('b'));
    assert_eq!(c.offer('b', Some(3)), Err('b'));
    assert_eq!(rx.try_recv(&mut c.state), Ok('a'));
    assert_eq!(c.state.next_unpark(), Some(3));
    assert_eq!(c.offer('b', None), Ok(()));
}

#[test]
/// After closing, each reader receives exactly what it has yet to read, in order,
/// and nothing after that.
fn a_closed_bus_gives_out_the_rest() {
    let mut c = Bus::new(4);
    let mut ahead = c.add_rx();
    let mut behind = c.add_rx();
    for i in 0..4 {
        assert_eq!(c.try_broadcast(i), Ok(()));
    }
    assert_eq!(ahead.try_recv(&mut c.state), Ok(0));
    assert_eq!(ahead.try_recv(&mut c.state), Ok(1));
    let mut state = c.close();
    assert_eq!(state.tail, 4);
    for i in 0..4 {
        assert_eq!(behind.try_recv(&mut state), Ok(i));
        let expected = if i < 2 { Ok(i + 2) } else { Err(TryRecvError::Disconnected) };
        assert_eq!(ahead.try_recv(&mut state), expected);
    }
    for _ in 0..3 {
        assert_eq!(behind.try_recv(&mut state), Err(TryRecvError::Disconnected));
    }
}

#[test]
/// Leaving lets the writer go on, wherever in the ring the reader was.
fn a_full_bus_forgets_readers_that_left() {
    let mut c = Bus::new(3);
    let mut stays = c.add_rx();
    let mut leaves = c.add_rx();
    assert_eq!(c.try_broadcast(0), Ok(()));
    assert_eq!(leaves.try_recv(&mut c.state), Ok(0));
    assert_eq!(c.try_broadcast(1), Ok(()));
    assert_eq!(c.try_broadcast(2), Ok(()));
    for i in 0..3 {
        assert_eq!(stays.try_recv(&mut c.state), Ok(i));
    }
    assert_eq!(c.try_broadcast(3), Ok(()));
    assert_eq!(c.try_broadcast(4), Err(4));
    leaves.leave(&mut c.state);
    for i in 4..6 {
        assert_eq!(c.try_broadcast(i), Ok(()));
    }
    assert_eq!(c.readers, 1);
    assert_eq!(c.try_broadcast(6), Err(6));
    for i in 3..6 {
        assert_eq!(stays.try_recv(&mut c.state), Ok(i));
    }
}

#[test]
fn rx_count_follows_joining_and_leaving() {
    let mut c = Bus::<u8>::new(2);
    assert_eq!(c.rx_count(), 0);
    let a = c.add_rx();
    let mut b = c.add_rx();
    assert_eq!(c.rx_count(), 2);
    a.leave(&mut c.state);
    assert_eq!(c.rx_count(), 1);
    assert_eq!(c.readers, 2);
    assert_eq!(c.try_broadcast(1), Ok(()));
    assert_eq!(c.try_broadcast(2), Ok(()));
    assert_eq!(c.rx_count(), 1);
    assert_eq!(b.try_recv(&mut c.state), Ok(1));
    assert_eq!(c.try_broadcast(3), Ok(()));
    assert_eq!(c.rx_count(), 1);
    b.leave(&mut c.state);
    assert_eq!(c.rx_count(), 0);
}

#[test]
/// A blocked writer spins, is then parked, and is due to be unparked once the
/// last reader in its way has read.
fn a_blocked_writer_waits_for_the_last_reader() {
    let mut c = Bus::new(1);
    let mut r1 = c.add_rx();
    let mut r2 = c.add_rx();
    let mut backoff = Backoff::new();
    assert!(matches!(c.broadcast('a', 7, &mut backoff), BroadcastStep::Sent));
    for _ in 0..10 {
        assert!(matches!(c.broadcast('b', 7, &mut backoff), BroadcastStep::Again('b')));
    }
    assert!(matches!(c.broadcast('b', 7, &mut backoff), BroadcastStep::Park('b', 100_000)));
    assert!(matches!(c.broadcast('b', 7, &mut backoff), BroadcastStep::Park('b', 100_000)));
    assert_eq!(r1.try_recv(&mut c.state), Ok('a'));
    assert_eq!(c.state.next_unpark(), None);
    assert_eq!(r2.try_recv(&mut c.state), Ok('a'));
    assert_eq!(c.state.next_unpark(), Some(7));
    assert_eq!(c.state.next_unpark(), None);
    assert!(matches!(c.broadcast('b', 7, &mut backoff), BroadcastStep::Sent));
    assert_eq!(r1.try_recv(&mut c.state), Ok('b'));
    assert_eq!(r2.try_recv(&mut c.state), Ok('b'));
    assert_eq!(c.state.next_unpark(), None);
}

#[test]
fn a_blocked_writer_goes_on_when_the_reader_leaves() {
    let mut c = Bus::new(1);
    let r1 = c.add_rx();
    let mut backoff = Backoff::new();
    assert!(matches!(c.broadcast(true, 1, &mut backoff), BroadcastStep::Sent));
    assert!(matches!(c.broadcast(false, 1, &mut backoff), BroadcastStep::Again(false)));
    r1.leave(&mut c.state);
    assert!(matches!(c.broadcast(false, 1, &mut backoff), BroadcastStep::Sent));
}

#[test]
fn a_seat_is_free_once_all_who_stay_have_read_it() {
    let mut c = Bus::new(1);
    let mut r1 = c.add_rx();
    let r2 = c.add_rx();
    assert_eq!(c.expect(0), 0);
    assert_eq!(c.try_broadcast(5), Ok(()));
    assert_eq!(c.expect(0), 2);
    r2.leave(&mut c.state);
    assert_eq!(c.expect(0), 2);
    assert_eq!(c.try_broadcast(6), Err(6));
    assert_eq!(c.expect(0), 1);
    assert_eq!(c.state.ring[0].read, 0);
    assert_eq!(r1.try_recv(&mut c.state), Ok(5));
    assert_eq!(c.state.ring[0].read, c.expect(0));
    assert_eq!(c.try_broadcast(6), Ok(()));
}
