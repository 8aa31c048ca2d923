use channel::{
    Attempt, Bus, RecvCondition, RecvError, RecvStep, RecvTimeoutError, TryRecvError,
};
use channel::timing::time_to_park;
use std::time::Duration;

#[test]
/// A reader with nothing to read tells the bus once that it waits, and is due to
/// be unparked when a message is placed.
fn a_waiting_reader_is_woken_by_the_next_message() {
    let mut c = Bus::new(2);
    let mut rx = c.add_rx();
    let mut attempt = Attempt::new(42);
    for _ in 0..10 {
        assert_eq!(rx.recv(&mut c.state, &mut attempt), RecvStep::Again);
    }
    assert_eq!(rx.recv(&mut c.state, &mut attempt), RecvStep::Park(100_000));
    assert_eq!(c.state.next_unpark(), None);
    assert_eq!(c.try_broadcast(1), Ok(()));
    assert_eq!(c.state.next_unpark(), Some(42));
    assert_eq!(c.state.next_unpark(), None);
    assert_eq!(rx.recv(&mut c.state, &mut attempt), RecvStep::Done(Ok(1)));
    assert_eq!(c.try_broadcast(2), Ok(()));
    assert_eq!(c.state.next_unpark(), None);
}

#[test]
/// Threads are woken in the order in which they began to wait.
fn waiting_readers_are_woken_in_order() {
    let mut c = Bus::new(2);
    let mut a = c.add_rx();
    let mut b = c.add_rx();
    assert_eq!(a.recv(&mut c.state, &mut Attempt::new(5)), RecvStep::Again);
    assert_eq!(b.recv(&mut c.state, &mut Attempt::new(3)), RecvStep::Again);
    assert_eq!(c.try_broadcast('x'), Ok(()));
    assert_eq!(c.state.next_unpark(), Some(5));
    assert_eq!(c.state.next_unpark(), Some(3));
    assert_eq!(c.state.next_unpark(), None);
}

#[test]
/// On a bus that can hold nothing the tail does not move, so a waiting reader
/// goes on waiting.
fn a_reader_at_the_tail_goes_on_waiting() {
    let mut c = Bus::new(0);
    let mut rx = c.add_rx();
    assert_eq!(rx.recv(&mut c.state, &mut Attempt::new(8)), RecvStep::Again);
    assert_eq!(c.try_broadcast('x'), Ok(()));
    assert_eq!(c.state.next_unpark(), None);
    assert!(c.cache.is_empty());
}

#[test]
/// A blocking reader looks twice before it believes that the bus is closed.
fn a_blocking_reader_finds_the_bus_closed() {
    let mut c = Bus::new(1);
    let mut rx = c.add_rx();
    assert_eq!(c.try_broadcast(1), Ok(()));
    let mut state = c.close();
    let mut attempt = Attempt::new(0);
    assert_eq!(rx.recv(&mut state, &mut attempt), RecvStep::Done(Ok(1)));
    assert_eq!(rx.recv(&mut state, &mut attempt), RecvStep::Again);
    assert!(!rx.closed);
    assert_eq!(rx.recv(&mut state, &mut attempt), RecvStep::Done(Err(RecvError)));
    assert!(rx.closed);
    let mut attempt = Attempt::new(0);
    assert_eq!(rx.recv(&mut state, &mut attempt), RecvStep::Done(Err(RecvError)));
    assert_eq!(rx.try_recv(&mut state), Err(TryRecvError::Disconnected));
}

#[test]
/// Closing wakes every thread that waits, in the order in which they began to
/// wait, and after that nobody begins to wait.
fn closing_wakes_the_waiting_readers() {
    let mut c = Bus::new(2);
    let mut a = c.add_rx();
    let mut b = c.add_rx();
    assert_eq!(c.try_broadcast('x'), Ok(()));
    assert_eq!(a.try_recv(&mut c.state), Ok('x'));
    assert_eq!(b.try_recv(&mut c.state), Ok('x'));
    let mut first = Attempt::new(7);
    let mut second = Attempt::new(4);
    assert_eq!(a.recv(&mut c.state, &mut first), RecvStep::Again);
    assert_eq!(b.recv(&mut c.state, &mut second), RecvStep::Again);
    assert_eq!(c.state.next_unpark(), None);
    let mut state = c.close();
    assert!(state.closed);
    assert_eq!(state.next_unpark(), Some(7));
    assert_eq!(state.next_unpark(), Some(4));
    assert_eq!(state.next_unpark(), None);
    assert_eq!(a.recv(&mut state, &mut first), RecvStep::Again);
    assert_eq!(a.recv(&mut state, &mut first), RecvStep::Done(Err(RecvError)));
    assert!(state.waiting.1.is_empty());
    assert_eq!(b.recv(&mut state, &mut second), RecvStep::Again);
    assert_eq!(b.recv(&mut state, &mut second), RecvStep::Done(Err(RecvError)));
}

#[test]
/// Threads that were due before the bus was closed stay due, ahead of those that
/// closing wakes.
fn closing_keeps_who_is_due() {
    let mut c = Bus::new(0);
    let mut waits = c.add_rx();
    assert_eq!(waits.recv(&mut c.state, &mut Attempt::new(2)), RecvStep::Again);
    assert_eq!(c.try_broadcast('x'), Ok(()));
    assert_eq!(c.state.next_unpark(), None);
    let mut state = c.close();
    assert_eq!(state.next_unpark(), Some(2));

    let mut c = Bus::new(1);
    let mut early = c.add_rx();
    let mut late = c.add_rx();
    assert_eq!(early.recv(&mut c.state, &mut Attempt::new(9)), RecvStep::Again);
    assert_eq!(c.try_broadcast('y'), Ok(()));
    assert_eq!(late.try_recv(&mut c.state), Ok('y'));
    assert_eq!(late.recv(&mut c.state, &mut Attempt::new(1)), RecvStep::Again);
    let mut state = c.close();
    assert_eq!(state.next_unpark(), Some(9));
    assert_eq!(state.next_unpark(), Some(1));
    assert_eq!(state.next_unpark(), None);
}

#[test]
/// A reader gives up once more time has elapsed than it has, and is never parked
/// for longer than is left.
fn a_timed_reader_gives_up_in_time() {
    let mut c = Bus::<u8>::new(1);
    let mut rx = c.add_rx();
    let timeout = Duration::from_millis(1);
    let mut attempt = Attempt::new(0);
    for _ in 0..10 {
        assert_eq!(
            rx.recv_timeout(&mut c.state, timeout, 5_000_000, &mut attempt),
            RecvStep::Again
        );
    }
    assert_eq!(
        rx.recv_timeout(&mut c.state, timeout, 0, &mut attempt),
        RecvStep::Park(100_000)
    );
    assert_eq!(
        rx.recv_timeout(&mut c.state, timeout, 900_000, &mut attempt),
        RecvStep::Park(100_000)
    );
    assert_eq!(
        rx.recv_timeout(&mut c.state, timeout, 900_001, &mut attempt),
        RecvStep::Park(99_999)
    );
    assert_eq!(
        rx.recv_timeout(&mut c.state, timeout, 1_000_000, &mut attempt),
        RecvStep::Park(0)
    );
    assert_eq!(
        rx.recv_timeout(&mut c.state, timeout, 1_000_001, &mut attempt),
        RecvStep::Done(Err(RecvTimeoutError::Timeout))
    );
    assert_eq!(c.try_broadcast(3), Ok(()));
    assert_eq!(
        rx.recv_timeout(&mut c.state, timeout, 9_000_000, &mut attempt),
        RecvStep::Done(Ok(3))
    );
}

#[test]
fn a_timed_reader_is_disconnected() {
    let mut c = Bus::<u8>::new(1);
    let mut rx = c.add_rx();
    let mut state = c.close();
    let mut attempt = Attempt::new(0);
    let timeout = Duration::from_secs(1);
    assert_eq!(rx.recv_timeout(&mut state, timeout, 0, &mut attempt), RecvStep::Again);
    assert_eq!(
        rx.recv_timeout(&mut state, timeout, 0, &mut attempt),
        RecvStep::Done(Err(RecvTimeoutError::Disconnected))
    );
}

#[test]
fn a_reader_that_does_not_wait_gives_up_at_once() {
    let mut c = Bus::<u8>::new(1);
    let mut rx = c.add_rx();
    let mut attempt = Attempt::new(0);
    assert_eq!(
        rx.recv_inner(&mut c.state, RecvCondition::Try, 0, &mut attempt),
        RecvStep::Done(Err(RecvTimeoutError::Timeout))
    );
    assert_eq!(
        rx.recv_inner(&mut c.state, RecvCondition::Block, 0, &mut attempt),
        RecvStep::Again
    );
}

#[test]
fn iterators_end_when_the_bus_is_closed() {
    let mut c = Bus::new(2);
    let mut rx = c.add_rx();
    let mut other = c.add_rx().into_iter();
    assert_eq!(c.try_broadcast(1), Ok(()));
    assert_eq!(c.try_broadcast(2), Ok(()));
    let mut attempt = Attempt::new(0);
    let mut iter = rx.iter();
    assert_eq!(iter.next(&mut c.state, &mut attempt), RecvStep::Done(Some(1)));
    assert_eq!(iter.next(&mut c.state, &mut attempt), RecvStep::Done(Some(2)));
    assert_eq!(iter.next(&mut c.state, &mut attempt), RecvStep::Again);
    let mut state = c.close();
    let mut attempt = Attempt::new(0);
    assert_eq!(iter.next(&mut state, &mut attempt), RecvStep::Again);
    assert_eq!(iter.next(&mut state, &mut attempt), RecvStep::Done(None));
    let mut attempt = Attempt::new(0);
    assert_eq!(other.next(&mut state, &mut attempt), RecvStep::Done(Some(1)));
    assert_eq!(other.next(&mut state, &mut attempt), RecvStep::Done(Some(2)));
    assert_eq!(other.next(&mut state, &mut attempt), RecvStep::Again);
    assert_eq!(other.next(&mut state, &mut attempt), RecvStep::Done(None));
    assert!(rx.closed);
}

#[test]
fn parking_times_are_exact() {
    assert_eq!(time_to_park(5, 6), None);
    assert_eq!(time_to_park(5, 5), Some(0));
    assert_eq!(time_to_park(100_000, 1), Some(99_999));
    assert_eq!(time_to_park(100_001, 1), Some(100_000));
    assert_eq!(time_to_park(u128::MAX, 0), Some(100_000));
    assert_eq!(time_to_park(0, u128::MAX), None);
}

#[test]
/// The writer leaves alone what a reader has yet to read, lap after lap.
fn unread_messages_are_not_overwritten() {
    let mut c = Bus::new(2);
    let mut rx = c.add_rx();
    for lap in 0..10 {
        assert_eq!(c.try_broadcast(2 * lap), Ok(()));
        assert_eq!(c.try_broadcast(2 * lap + 1), Ok(()));
        assert_eq!(c.try_broadcast(99), Err(99));
        assert_eq!(rx.try_recv(&mut c.state), Ok(2 * lap));
        assert_eq!(rx.try_recv(&mut c.state), Ok(2 * lap + 1));
        assert_eq!(rx.try_recv(&mut c.state), Err(TryRecvError::Empty));
    }
}

#[test]
/// Looking and pausing are the two halves of a try.
fn a_reader_looks_and_then_pauses() {
    let mut c = Bus::new(1);
    let mut rx = c.add_rx();
    let mut attempt = Attempt::new(6);
    assert_eq!(rx.look(&mut c.state, RecvCondition::Block, &mut attempt), None);
    assert_eq!(attempt.pause(RecvCondition::Block, 0), RecvStep::Again);
    assert_eq!(c.try_broadcast('m'), Ok(()));
    assert_eq!(c.state.next_unpark(), Some(6));
    assert_eq!(
        rx.look(&mut c.state, RecvCondition::Block, &mut attempt),
        Some(RecvStep::Done(Ok('m')))
    );
    for _ in 1..10 {
        assert_eq!(attempt.pause(RecvCondition::Block, 0), RecvStep::Again);
    }
    assert_eq!(attempt.pause(RecvCondition::Block, 0), RecvStep::Park(100_000));
    let limited = RecvCondition::Timeout(Duration::from_nanos(5));
    assert_eq!(attempt.pause(limited, 2), RecvStep::Park(3));
    assert_eq!(attempt.pause(limited, 6), RecvStep::Done(RecvTimeoutError::Timeout));
    assert_eq!(limited.time_to_park(2), Some(3));
    assert_eq!(limited.time_to_park(5), Some(0));
    assert_eq!(limited.time_to_park(6), None);
    assert_eq!(RecvCondition::Block.time_to_park(6), Some(100_000));
}
