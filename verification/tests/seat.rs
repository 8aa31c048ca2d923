use channel::{AtomicOption, MutSeatState, Seat, SeatState};
use std::sync::Mutex;

#[test]
fn test_seat_state() {
    let mut state = SeatState { max: 10, val: None };
    assert_eq!(state.max, 10);
    assert_eq!(state.val, None);
    state.val = Some(5);
    assert_eq!(state.max, 10);
    assert_eq!(state.val, Some(5));
}

#[test]
fn test_sync_impl() {
    let state = MutSeatState(SeatState::new());
    // The state can be shared between threads.
    let shared_state: &Mutex<MutSeatState<i32>> = &Mutex::new(state);
    let shared_guard = shared_state.lock().unwrap();
    assert_eq!(shared_guard.max, 0);
    assert_eq!(shared_guard.val, None);
    drop(shared_guard);
}

#[test]
fn atomic_option_swaps_and_takes() {
    let mut place: AtomicOption<u8> = AtomicOption::empty();
    assert_eq!(place.take(), None);
    assert_eq!(place.swap(Some(Box::new(3))), None);
    assert_eq!(place.swap(Some(Box::new(4))), Some(Box::new(3)));
    assert_eq!(place.take(), Some(Box::new(4)));
    assert_eq!(place.take(), None);
}

#[test]
fn only_the_last_reader_takes_the_message_away() {
    let mut seat: Seat<String> = Seat::default();
    seat.place(String::from("news"), 2);
    seat.waiting.swap(Some(Box::new(17)));
    assert_eq!(seat.take(), (String::from("news"), None));
    assert_eq!(seat.read, 1);
    assert_eq!(seat.state.val, Some(String::from("news")));
    assert_eq!(seat.take(), (String::from("news"), Some(17)));
    assert_eq!(seat.read, 2);
    assert_eq!(seat.state.val, None);
    assert_eq!(seat.waiting.take(), None);
}

#[test]
fn placing_forgets_the_waiting_writer() {
    let mut seat: Seat<u8> = Seat::default();
    seat.waiting.swap(Some(Box::new(1)));
    seat.place(9, 3);
    assert_eq!(seat.waiting.take(), None);
    assert_eq!(seat.state.max, 3);
    assert_eq!(seat.state.val, Some(9));
    assert_eq!(seat.read, 0);
}

#[test]
/// Two readers that look at the same time both get a clone, and neither takes
/// the message away.
fn readers_that_overlap_leave_the_message_behind() {
    let mut seat: Seat<u8> = Seat::default();
    seat.place(6, 2);
    seat.waiting.swap(Some(Box::new(4)));
    let seen_by_both = seat.read;
    assert_eq!(seat.fetch(seen_by_both), (6, None));
    assert_eq!(seat.fetch(seen_by_both), (6, None));
    seat.count();
    seat.count();
    assert_eq!(seat.read, seat.state.max);
    assert_eq!(seat.state.val, Some(6));
    assert_eq!(seat.waiting.take(), Some(Box::new(4)));
}

#[test]
/// The message is taken away before its last reader is counted as done.
fn the_last_reader_is_counted_last() {
    let mut seat: Seat<u8> = Seat::default();
    seat.place(6, 1);
    let read = seat.read;
    assert_eq!(seat.fetch(read), (6, None));
    assert_eq!(seat.state.val, None);
    assert_eq!(seat.read, 0);
    seat.count();
    assert_eq!(seat.read, 1);
}

#[test]
/// Of several readers all but the last get a clone, and the last gets the message
/// itself: it is still where the writer had it in memory.
fn only_the_last_reader_gets_the_message_itself() {
    let message = vec![1, 2, 3];
    let place = message.as_ptr();
    let mut seat: Seat<Vec<u8>> = Seat::default();
    seat.place(message, 3);
    for reader in 0..3 {
        assert!(seat.state.val.is_some());
        let (got, _) = seat.take();
        assert_eq!(got, vec![1, 2, 3]);
        assert_eq!(got.as_ptr() == place, reader == 2);
    }
    assert_eq!(seat.state.val, None);
    assert_eq!(seat.read, 3);
}
