//! The state that the writer and the readers of a bus share.
use crate::history::History;
use crate::position::slot_message;
use crate::queue::{
    next_number, number_channel, numbers_linked, numbers_queued, pair_channel, pairs_linked,
    pairs_queued,
};
use crate::seat::Seat;
use crossbeam_channel::{Receiver, Sender};
use vstd::prelude::*;

verus! {

/// `BusInner` encapsulates data, which can be accessed by both the writer and
/// the readers.
#[verifier::reject_recursive_types(T)]
pub struct BusInner<T> {
    /// The seats. One more than the bus can hold unread messages: the seat at
    /// the tail is always free.
    pub ring: Vec<Seat<T>>,
    /// How many seats there are.
    pub len: usize,
    /// The seat that the next message goes to.
    pub tail: usize,
    /// Whether the writer is gone.
    pub closed: bool,
    /// The positions at which readers have left.
    pub leaving: (Sender<usize>, Receiver<usize>),
    /// The tickets of threads that wait for a message, each with the position
    /// at which it waits.
    pub waiting: (Sender<(usize, usize)>, Receiver<(usize, usize)>),
    /// The tickets of threads that are to be unparked.
    pub unpark: (Sender<usize>, Receiver<usize>),
    /// What the bus has done so far.
    pub history: Ghost<History<T>>,
}

impl<T> View for BusInner<T> {
    type V = History<T>;

    open spec fn view(&self) -> History<T> {
        self.history@
    }
}

impl<T> BusInner<T> {
    /// How many unread messages the bus can hold.
    pub open spec fn capacity(self) -> int {
        self.len - 1
    }

    /// The positions of readers that have left without the bus having taken
    /// note.
    pub open spec fn departures(self) -> Seq<usize> {
        numbers_queued(self.leaving)
    }

    /// The threads that wait for a message, each with its position.
    pub open spec fn waiters(self) -> Seq<(usize, usize)> {
        pairs_queued(self.waiting)
    }

    /// The threads that are to be unparked.
    pub open spec fn wakeups(self) -> Seq<usize> {
        numbers_queued(self.unpark)
    }

    /// For each seat, the writer that waits for it, if one does.
    pub open spec fn parked(self) -> Seq<Option<usize>> {
        Seq::new(self.len as nat, |slot: int| self.ring[slot].waiting@)
    }

    /// The number of the message that belongs in a seat.
    pub open spec fn message_in(self, slot: int) -> int {
        slot_message(self@.log.len() as int, self.len as int, slot)
    }

    /// How many readers left without reading the message in a seat, and have
    /// been taken note of.
    pub open spec fn missed(self, slot: int) -> int {
        if self.len == 1 {
            0
        } else {
            self.ring[slot].max() - self.ring[slot].read - self@.expecting(
                self.message_in(slot),
            ).len()
        }
    }

    /// For each seat, the number of reads that it will miss.
    pub open spec fn debts(self) -> Seq<int> {
        Seq::new(self.len as nat, |slot: int| self.missed(slot))
    }

    /// A seat was written for no more readers than ever joined, has been read by
    /// no more readers than it was written for, those still to come excluded, and
    /// keeps its message for these.
    pub open spec fn seat_wf(self, slot: int) -> bool {
        if self.len == 1 {
            &&& self.ring[slot].read == 0
            &&& self.ring[slot].max() <= self@.cursors.len()
        } else {
            &&& 0 <= self.missed(slot)
            &&& self.ring[slot].max() <= self@.cursors.len()
            &&& self.ring[slot].read < self.ring[slot].max() ==> 0 <= self.message_in(slot)
                && self.ring[slot].val() == Some(self@.log[self.message_in(slot)])
        }
    }

    /// The seats and the queues agree with what the bus has done so far, and nobody
    /// waits for a message once the writer is gone.
    pub open spec fn wf(self) -> bool {
        &&& 1 <= self.len
        &&& self.ring@.len() == self.len
        &&& self.tail == self@.log.len() as int % self.len as int
        &&& self@.wf(self.capacity())
        &&& forall|slot: int| 0 <= slot < self.len ==> #[trigger] self.seat_wf(slot)
        &&& numbers_linked(self.leaving)
        &&& pairs_linked(self.waiting)
        &&& numbers_linked(self.unpark)
        &&& self.departures().len() == self@.leavers.len()
        &&& forall|i: int|
            0 <= i < self@.leavers.len() ==> #[trigger] self.departures()[i] == self@.cursor(
                self@.leavers[i],
            ) % self.len as int
        &&& self.closed ==> self.waiters().len() == 0
    }

    /// Whether a bus that can hold no messages is stuck with the last one: it has
    /// been sent while readers were counted, and nobody can ever read it.
    pub open spec fn stuck(self) -> bool {
        self.capacity() == 0 && self.ring[0].max() > 0
    }

    /// Whether there is room for a message as things stand: no reader that the
    /// bus counts has as many messages to read as the bus can hold. A bus that
    /// can hold none has room unless it is stuck and counts readers.
    pub open spec fn roomy(self) -> bool {
        if self.capacity() == 0 {
            !self.stuck() || self@.audience().len() == 0
        } else {
            forall|id: int| #[trigger] self@.counted(id) ==> self@.unread(id) < self.capacity()
        }
    }

    /// Whether there is room for a message once the bus has taken note of the
    /// readers that have left: no live reader has as many messages to read as
    /// the bus can hold. A bus that can hold none has room unless it is stuck and
    /// there are live readers.
    pub open spec fn has_room(self) -> bool {
        if self.capacity() == 0 {
            !self.stuck() || self@.live_readers().len() == 0
        } else {
            forall|id: int| #[trigger] self@.live(id) ==> self@.unread(id) < self.capacity()
        }
    }

    /// The waiting threads and whether the writer is gone do not enter the books.
    pub proof fn lemma_same_books(self, was: BusInner<T>)
        requires
            was.wf(),
            self.ring == was.ring,
            self.len == was.len,
            self.tail == was.tail,
            self@ == was@,
            numbers_linked(self.leaving),
            self.departures() == was.departures(),
            pairs_linked(self.waiting),
            numbers_linked(self.unpark),
            self.closed ==> self.waiters().len() == 0,
        ensures
            self.wf(),
            self.debts() == was.debts(),
            self.parked() == was.parked(),
            self.stuck() == was.stuck(),
    {
        assert forall|slot: int| 0 <= slot < self.len implies #[trigger] self.seat_wf(slot)
            && self.missed(slot) == was.missed(slot) by {
            assert(was.seat_wf(slot));
        }
        assert(self.debts() =~= was.debts());
        assert(self.parked() =~= was.parked());
    }

    /// Who waits for which seat is a matter of the seats alone.
    pub proof fn lemma_same_parked(self, was: BusInner<T>)
        requires
            self.ring == was.ring,
            self.len == was.len,
        ensures
            self.parked() == was.parked(),
            self.stuck() == was.stuck(),
    {
        assert(self.parked() =~= was.parked());
    }

    /// That a writer waits for a seat does not enter the books.
    pub proof fn lemma_parked(self, was: BusInner<T>, slot: int)
        requires
            was.wf(),
            0 <= slot < was.len,
            self == (BusInner { ring: self.ring, ..was }),
            self.ring@ == was.ring@.update(slot, self.ring[slot]),
            self.ring[slot].state == was.ring[slot].state,
            self.ring[slot].read == was.ring[slot].read,
        ensures
            self.wf(),
            self.debts() == was.debts(),
            self.parked() == was.parked().update(slot, self.ring[slot].waiting@),
            self.stuck() == was.stuck(),
    {
        assert forall|i: int| 0 <= i < self.len implies #[trigger] self.seat_wf(i) && self.missed(i)
            == was.missed(i) by {
            assert(was.seat_wf(i));
        }
        assert(self.debts() =~= was.debts());
        assert(self.parked() =~= was.parked().update(slot, self.ring[slot].waiting@));
    }

    /// The shared state of a new bus with `len` seats.
    pub fn new(len: usize) -> (inner: BusInner<T>)
        requires
            1 <= len,
        ensures
            inner.wf(),
            inner.len == len,
            inner@ == History::<T>::start(),
            forall|slot: int|
                0 <= slot < len ==> {
                    &&& (#[trigger] inner.ring[slot]).max() == 0
                    &&& inner.ring[slot].val() is None
                    &&& inner.ring[slot].read == 0
                },
            inner.debts() == Seq::new(len as nat, |slot: int| 0int),
            inner.parked() == Seq::new(len as nat, |slot: int| None::<usize>),
            inner.waiters() == Seq::<(usize, usize)>::empty(),
            inner.wakeups() == Seq::<usize>::empty(),
            !inner.stuck(),
            !inner.closed,
    {
        let mut ring: Vec<Seat<T>> = Vec::new();
        let mut i: usize = 0;
        while i < len
            invariant
                i <= len,
                ring@.len() == i,
                forall|slot: int|
                    0 <= slot < i ==> {
                        &&& (#[trigger] ring@[slot]).max() == 0
                        &&& ring@[slot].val() is None
                        &&& ring@[slot].read == 0
                        &&& ring@[slot].waiting@ is None
                    },
            decreases len - i,
        {
            ring.push(Seat::default());
            i = i + 1;
        }
        let inner = BusInner {
            ring,
            len,
            tail: 0,
            closed: false,
            leaving: number_channel(),
            waiting: pair_channel(),
            unpark: number_channel(),
            history: Ghost(History::start()),
        };
        proof {
            assert(0int % (len as int) == 0) by (nonlinear_arith)
                requires
                    1 <= len,
            ;
            assert forall|slot: int| 0 <= slot < len implies inner.seat_wf(slot) && inner.missed(
                slot,
            ) == 0 by {
                assert(inner@.expecting(inner.message_in(slot)) =~= Set::empty());
            }
            assert(inner.debts() =~= Seq::new(len as nat, |slot: int| 0int));
            assert(inner.parked() =~= Seq::new(len as nat, |slot: int| None::<usize>));
        }
        inner
    }

    /// The next thread that is to be unparked, if there is one; it is then no
    /// longer due.
    pub fn next_unpark(&mut self) -> (ticket: Option<usize>)
        requires
            old(self).wf(),
        ensures
            final(self).wf(),
            *final(self) == (BusInner { unpark: final(self).unpark, ..*old(self) }),
            final(self).parked() == old(self).parked(),
            final(self).debts() == old(self).debts(),
            old(self).wakeups().len() == 0 ==> {
                &&& ticket is None
                &&& final(self).wakeups() == old(self).wakeups()
            },
            old(self).wakeups().len() > 0 ==> {
                &&& ticket == Some(old(self).wakeups()[0])
                &&& final(self).wakeups() == old(self).wakeups().skip(1)
            },
    {
        let ticket = next_number(&mut self.unpark);
        proof {
            self.lemma_same_books(*old(self));
        }
        ticket
    }
}

} // verus!
