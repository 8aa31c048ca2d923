//! Seats: the slots of the ring. A seat keeps one message until as many readers
//! have read it as it was written for.
use crate::atomic_option::AtomicOption;
use vstd::prelude::*;

verus! {

/// What the writer puts in a seat.
pub struct SeatState<T> {
    /// How many readers the message was written for.
    pub max: usize,
    /// The message, unless the last of these readers has taken it away.
    pub val: Option<T>,
}

impl<T> SeatState<T> {
    /// The state of a seat that was never written: no message, and no readers
    /// that expect one.
    pub fn new() -> (state: SeatState<T>)
        ensures
            state.max == 0,
            state.val is None,
    {
        SeatState { max: 0, val: None }
    }
}

/// The state of a seat, as the seat owns it.
pub struct MutSeatState<T>(pub SeatState<T>);

impl<T> core::ops::Deref for MutSeatState<T> {
    type Target = SeatState<T>;

    fn deref(&self) -> (state: &SeatState<T>)
        ensures
            *state == self.0,
    {
        &self.0
    }
}

/// A seat represents a single location in the circular buffer.
pub struct Seat<T> {
    /// The message and how many readers it was written for.
    pub state: MutSeatState<T>,
    /// How many of these readers have read it.
    pub read: usize,
    /// The ticket of a writer that waits for the seat to become free.
    pub waiting: AtomicOption<usize>,
}

impl<T> Default for Seat<T> {
    /// A seat that was never written.
    fn default() -> (seat: Seat<T>)
        ensures
            seat.max() == 0,
            seat.val() is None,
            seat.read == 0,
            seat.waiting@ is None,
    {
        Seat { state: MutSeatState(SeatState::new()), read: 0, waiting: AtomicOption::empty() }
    }
}

impl<T> Seat<T> {
    /// How many readers the message was written for.
    pub open spec fn max(self) -> int {
        self.state.0.max as int
    }

    /// The message, unless the last reader has taken it away.
    pub open spec fn val(self) -> Option<T> {
        self.state.0.val
    }

    /// Whether a reader may take the message: it was written for more readers
    /// than have read it, and it is there.
    pub open spec fn readable(self) -> bool {
        self.read < self.max() && self.val() is Some
    }

    /// Whether the next reader to take the message is the last one.
    pub open spec fn at_last_reader(self) -> bool {
        self.read + 1 == self.max()
    }

    /// Whether the seat holds a message that has just been placed for `readers`
    /// readers: nobody has read it, and no writer waits for the seat.
    pub open spec fn holds(self, val: T, readers: usize) -> bool {
        &&& self.max() == readers
        &&& self.val() == Some(val)
        &&& self.read == 0
        &&& self.waiting@ is None
    }

    /// Places a message for `readers` readers: nobody has read it yet, and no
    /// writer waits for the seat any more.
    pub fn place(&mut self, val: T, readers: usize)
        ensures
            final(self).holds(val, readers),
    {
        self.state.0.max = readers;
        self.state.0.val = Some(val);
        self.waiting.take();
        self.read = 0;
    }
}

/// Whether `val` is what a reader gets of a message: the last reader gets the
/// message itself, every other reader gets a clone.
pub open spec fn handed_over<T: Clone>(message: T, val: T, last: bool) -> bool {
    if last {
        val == message
    } else {
        vstd::pervasive::strictly_cloned(message, val)
    }
}

/// What is left of a message that was written for `max` readers, once a reader
/// has fetched it that has seen `read` others done with it: the last reader
/// takes it away.
pub open spec fn left_behind<T>(val: Option<T>, read: int, max: int) -> Option<T> {
    if read + 1 == max {
        None
    } else {
        val
    }
}

impl<T> Seat<T> {
    /// What a seat is like once it has counted one more reader as done, as compared
    /// to `before`.
    pub open spec fn has_counted(self, before: Seat<T>) -> bool {
        &&& self == (Seat { read: self.read, ..before })
        &&& self.read == before.read + 1
    }

    /// Counts one more reader that is done with the message.
    pub fn count(&mut self)
        requires
            old(self).read < usize::MAX,
        ensures
            final(self).has_counted(*old(self)),
    {
        self.read = self.read + 1;
    }
}

impl<T: Clone> Seat<T> {
    /// What a seat is like once a reader that has seen `read` others done has
    /// fetched its message, as compared to `before`, and what the reader got.
    pub open spec fn has_let_fetch(
        self,
        before: Seat<T>,
        read: usize,
        fetched: (T, Option<usize>),
    ) -> bool {
        &&& self.max() == before.max()
        &&& self.read == before.read
        &&& self.val() == left_behind(before.val(), read as int, before.max())
        &&& handed_over(before.val()->0, fetched.0, read + 1 == before.max())
        &&& read + 1 == before.max() ==> {
            &&& fetched.1 == before.waiting@
            &&& self.waiting@ is None
        }
        &&& read + 1 != before.max() ==> {
            &&& fetched.1 is None
            &&& self.waiting@ == before.waiting@
        }
    }

    /// Lets a reader have the message that has seen `read` others done with it.
    /// The last reader gets the message itself, and with it the ticket of the
    /// writer that waits for the seat, if one does; every other reader gets a
    /// clone.
    pub fn fetch(&mut self, read: usize) -> (fetched: (T, Option<usize>))
        requires
            read < old(self).max(),
            old(self).val() is Some,
        ensures
            final(self).has_let_fetch(*old(self), read, fetched),
    {
        let mut waiting: Option<usize> = None;
        let v = if read + 1 == self.state.0.max {
            waiting = match self.waiting.take() {
                Some(ticket) => Some(*ticket),
                None => None,
            };
            self.state.0.val.take().unwrap()
        } else {
            match &self.state.0.val {
                Some(val) => val.clone(),
                None => vstd::pervasive::unreached(),
            }
        };
        (v, waiting)
    }

    /// What a seat is like once a reader has taken its message, as compared to
    /// `before`, and what the reader got.
    pub open spec fn has_given(self, before: Seat<T>, taken: (T, Option<usize>)) -> bool {
        &&& self.read == before.read + 1
        &&& self.max() == before.max()
        &&& handed_over(before.val()->0, taken.0, before.at_last_reader())
        &&& before.at_last_reader() ==> {
            &&& taken.1 == before.waiting@
            &&& self.val() is None
            &&& self.waiting@ is None
        }
        &&& !before.at_last_reader() ==> {
            &&& taken.1 is None
            &&& self.val() == before.val()
            &&& self.waiting@ == before.waiting@
        }
    }

    /// Lets a reader have the message, and counts it as done.
    pub fn take(&mut self) -> (taken: (T, Option<usize>))
        requires
            old(self).readable(),
        ensures
            final(self).has_given(*old(self), taken),
    {
        let read: usize = self.read;
        let taken = self.fetch(read);
        self.count();
        taken
    }
}

} // verus!
