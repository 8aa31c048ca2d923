//! The writer's side of a bus.
use crate::history::{lemma_event_wf, Event, History};
use crate::inner::BusInner;
use crate::queue::{count_numbers, next_number, next_pair, send_number, send_pair};
use crate::reader::BusReader;
use crate::timing::{Backoff, SPINTIME, SPIN_LIMIT};
use core::marker::PhantomData;
use vstd::prelude::*;

verus! {

/// `Bus` is the core data structure: the one writer of a bus.
#[verifier::reject_recursive_types(T)]
pub struct Bus<T> {
    /// The state that the writer shares with the readers.
    pub state: BusInner<T>,
    /// How many readers the bus counts.
    pub readers: usize,
    /// For each seat, how many readers left before they read it.
    pub rleft: Vec<usize>,
    /// The waiting threads that the last message does not concern.
    pub cache: Vec<(usize, usize)>,
}

/// How far an attempt to place a message on a bus has come.
pub enum BroadcastStep<T> {
    /// The message is on the bus.
    Sent,
    /// The bus is full, and the message is handed back.
    Full(T),
    /// The bus is full; try again at once.
    Again(T),
    /// The bus is full; try again after being parked, at most for as many
    /// nanoseconds.
    Park(T, u64),
}

/// Whether a waiting thread waits at position `tail`.
pub open spec fn waits_at(tail: usize) -> spec_fn((usize, usize)) -> bool {
    |waiter: (usize, usize)| waiter.1 == tail
}

/// Whether a waiting thread waits anywhere but at position `tail`.
pub open spec fn waits_elsewhere(tail: usize) -> spec_fn((usize, usize)) -> bool {
    |waiter: (usize, usize)| waiter.1 != tail
}

/// The ticket of a waiting thread.
pub open spec fn ticket_of() -> spec_fn((usize, usize)) -> usize {
    |waiter: (usize, usize)| waiter.0
}

/// The waiting threads that wait at position `tail`.
pub open spec fn staying(waiters: Seq<(usize, usize)>, tail: usize) -> Seq<(usize, usize)> {
    waiters.filter(waits_at(tail))
}

/// The tickets of the waiting threads that wait elsewhere.
pub open spec fn woken(waiters: Seq<(usize, usize)>, tail: usize) -> Seq<usize> {
    waiters.filter(waits_elsewhere(tail)).map_values(ticket_of())
}

impl<T> Bus<T> {
    /// The writer's counts agree with the shared state.
    pub open spec fn wf(self) -> bool {
        &&& self.state.wf()
        &&& self.readers == self.state@.audience().len()
        &&& self.rleft@.len() == self.state.len
        &&& forall|slot: int|
            0 <= slot < self.state.len ==> #[trigger] self.rleft@[slot]
                == self.state.debts()[slot]
        &&& self.cache@.len() == 0
        &&& !self.state.closed
    }

    /// The seat after the tail: the one that must be free before a message is
    /// placed at the tail.
    pub open spec fn fence(self) -> int {
        (self.state.tail + 1) % self.state.len as int
    }

    /// Allocates a new `Bus` that can hold `len` unread messages.
    pub fn new(len: usize) -> (bus: Bus<T>)
        requires
            len < usize::MAX,
        ensures
            bus.wf(),
            bus.readers == 0,
            bus.state.capacity() == len,
            bus.state@ == History::<T>::start(),
            forall|slot: int|
                0 <= slot < len + 1 ==> {
                    &&& (#[trigger] bus.state.ring[slot]).max() == 0
                    &&& bus.state.ring[slot].val() is None
                    &&& bus.state.ring[slot].read == 0
                },
            bus.state.parked() == Seq::new((len + 1) as nat, |slot: int| None::<usize>),
            bus.state.waiters() == Seq::<(usize, usize)>::empty(),
            bus.state.wakeups() == Seq::<usize>::empty(),
            !bus.state.stuck(),
    {
        let seats: usize = len + 1;
        let mut rleft: Vec<usize> = Vec::new();
        let mut i: usize = 0;
        while i < seats
            invariant
                i <= seats,
                rleft@ == Seq::new(i as nat, |slot: int| 0usize),
            decreases seats - i,
        {
            rleft.push(0);
            i = i + 1;
        }
        let bus = Bus { state: BusInner::new(seats), readers: 0, rleft, cache: Vec::new() };
        proof {
            assert(bus.state@.audience() =~= Set::empty());
        }
        bus
    }

    /// The adjusted read count: how many readers will have read the given seat
    /// by the time it is free again, those left out that have gone.
    pub fn expect(&self, at: usize) -> (reads: usize)
        requires
            self.wf(),
            at < self.state.len,
        ensures
            reads == self.state.ring[at as int].max() - self.rleft[at as int],
            self.state.capacity() > 0 ==> reads == self.state.ring[at as int].read
                + self.state@.expecting(self.state.message_in(at as int)).len(),
            self.state.capacity() == 0 ==> reads == self.state.ring[at as int].max(),
    {
        proof {
            assert(self.state.seat_wf(at as int));
            assert(self.rleft@[at as int] == self.state.debts()[at as int]);
        }
        let max_reads: usize = self.state.ring[at].state.0.max;
        max_reads - self.rleft[at]
    }

    /// There is room where nobody is counted, and where the seat after the tail
    /// has been read as often as it should.
    proof fn lemma_fence(self, fence: int)
        requires
            self.wf(),
            fence == self.fence(),
        ensures
            0 <= fence < self.state.len,
            self.state.roomy() <==> self.readers == 0 || self.state.ring[fence].read
                == self.state.ring[fence].max() - self.rleft[fence],
    {
        let n = self.state@.log.len() as int;
        let len = self.state.len as int;
        crate::position::lemma_next_slot(n, len);
        crate::position::lemma_slot_message(n, len, fence);
        assert(self.state.seat_wf(fence));
        assert(self.rleft@[fence] == self.state.debts()[fence]);
        if len > 1 {
            let m = self.state.message_in(fence);
            assert(m == n + 1 - len) by {
                assert((n + 1 - len) % len == (n + 1) % len) by {
                    vstd::arithmetic::div_mod::lemma_mod_sub_multiples_vanish(n + 1, len);
                }
                crate::position::lemma_message_slot(n, len, n + 1 - len);
            }
            let behind = self.state@.expecting(m);
            self.state@.lemma_finite(m);
            if self.state.roomy() {
                assert forall|id: int| !behind.contains(id) by {
                    if self.state@.counted(id) {
                        assert(self.state@.unread(id) < self.state.capacity());
                    }
                }
                assert(behind =~= Set::empty());
            } else {
                let id = choose|id: int| #[trigger]
                    self.state@.counted(id) && !(self.state@.unread(id) < self.state.capacity());
                assert(behind.contains(id));
                assert(self.state@.audience().contains(id));
            }
        }
    }

    /// Takes note of the first of the readers that have left, if there is one:
    /// every seat from where it was to the tail will be read once less.
    fn note_departure(&mut self) -> (noted: bool)
        requires
            old(self).wf(),
        ensures
            final(self).wf(),
            noted == (old(self).state@.leavers.len() > 0),
            noted ==> {
                &&& final(self).state@ == old(self).state@.noted()
                &&& final(self).readers == old(self).readers - 1
            },
            !noted ==> {
                &&& final(self).state@ == old(self).state@
                &&& final(self).readers == old(self).readers
            },
            final(self).state.ring == old(self).state.ring,
            final(self).state.len == old(self).state.len,
            final(self).state.tail == old(self).state.tail,
            final(self).state.closed == old(self).state.closed,
            final(self).state.waiting == old(self).state.waiting,
            final(self).state.unpark == old(self).state.unpark,
    {
        let ghost was = *self;
        let ghost h = self.state@;
        let ghost n = h.log.len() as int;
        let ghost len = self.state.len as int;
        let ghost id = h.leavers[0];
        let ghost c = h.cursor(id);
        let ghost next = h.noted();
        let left = next_number(&mut self.state.leaving);
        match left {
            None => {
                proof {
                    self.state.lemma_same_books(was.state);
                }
                false
            },
            Some(at) => {
                let mut left_at: usize = at;
                let tail: usize = self.state.tail;
                let ring_len: usize = self.state.len;
                let ghost mut j = c;
                proof {
                    assert(h.counted(h.leavers[0]));
                    assert(was.state.departures()[0] == at);
                    assert(n - (len - 1) <= c <= n);
                    assert forall|m: int| #![trigger h.expecting(m)] c <= m implies h.expecting(
                        m,
                    ).len() > 0 by {
                        h.lemma_noted(m);
                    }
                    h.lemma_noted(0);
                    vstd::arithmetic::div_mod::lemma_mod_bound(c, len);
                }
                self.readers = self.readers - 1;
                let ghost mid = *self;
                while left_at != tail
                    invariant
                        was.wf(),
                        was.state@ == h,
                        was.state.len == ring_len,
                        len == ring_len,
                        1 <= len,
                        n == h.log.len(),
                        tail == n % len,
                        n - (len - 1) <= c <= j <= n,
                        left_at == j % len,
                        forall|m: int|
                            #![trigger h.expecting(m)]
                            c <= m ==> h.expecting(m).len() > 0,
                        self.rleft@.len() == len,
                        forall|slot: int| #![trigger self.rleft@[slot]]
                            0 <= slot < len ==> self.rleft@[slot] == was.rleft@[slot] + (if c
                                <= was.state.message_in(slot) < j {
                                1int
                            } else {
                                0int
                            }),
                        self.state == mid.state,
                        self.readers == mid.readers,
                        self.cache == mid.cache,
                    decreases n - j,
                {
                    proof {
                        crate::position::lemma_message_slot(n, len, j);
                        crate::position::lemma_next_slot(j, len);
                        assert(was.state.seat_wf(left_at as int));
                        assert(was.rleft@[left_at as int] == was.state.debts()[left_at as int]);
                        assert(h.expecting(j).len() > 0);
                        assert forall|slot: int| #![trigger was.state.message_in(slot)]
                            0 <= slot < len && was.state.message_in(slot) == j implies slot
                            == left_at by {
                            crate::position::lemma_slot_message(n, len, slot);
                        }
                    }
                    self.rleft[left_at] = self.rleft[left_at] + 1;
                    left_at = (left_at + 1) % ring_len;
                    proof {
                        j = j + 1;
                    }
                }
                proof {
                    crate::position::lemma_same_slot(j, n, len);
                    self.state.history@ = next;
                    assert forall|slot: int| 0 <= slot < len implies #[trigger] self.state.seat_wf(
                        slot,
                    ) && self.rleft@[slot] == self.state.missed(slot) by {
                        assert(was.state.seat_wf(slot));
                        assert(was.rleft@[slot] == was.state.debts()[slot]);
                        crate::position::lemma_slot_message(n, len, slot);
                        h.lemma_noted(was.state.message_in(slot));
                    }
                    assert forall|slot: int| 0 <= slot < len implies #[trigger] self.rleft@[slot]
                        == self.state.debts()[slot] by {
                        assert(self.state.seat_wf(slot));
                    }
                    h.lemma_noted_wf(len - 1);
                    assert forall|i: int| 0 <= i < next.leavers.len() implies #[trigger]
                        self.state.departures()[i] == next.cursor(next.leavers[i]) % len by {
                        assert(was.state.departures()[i + 1] == h.cursor(h.leavers[i + 1]) % len);
                    }
                }
                true
            },
        }
    }

    /// Takes note of all the readers that have left.
    fn note_departures(&mut self)
        requires
            old(self).wf(),
        ensures
            final(self).wf(),
            final(self).state@ == old(self).state@.settled(),
            final(self).readers == old(self).readers - old(self).state@.leavers.len(),
            final(self).state.ring == old(self).state.ring,
            final(self).state.len == old(self).state.len,
            final(self).state.tail == old(self).state.tail,
            final(self).state.closed == old(self).state.closed,
            final(self).state.waiting == old(self).state.waiting,
            final(self).state.unpark == old(self).state.unpark,
    {
        let ghost was = *self;
        loop
            invariant_except_break
                self.state@.settled() == was.state@.settled(),
                self.readers - self.state@.leavers.len() == was.readers - was.state@.leavers.len(),
            invariant
                self.wf(),
                self.state.ring == was.state.ring,
                self.state.len == was.state.len,
                self.state.tail == was.state.tail,
                self.state.closed == was.state.closed,
                self.state.waiting == was.state.waiting,
                self.state.unpark == was.state.unpark,
            ensures
                self.state@ == was.state@.settled(),
                self.readers == was.readers - was.state@.leavers.len(),
            decreases self.state@.leavers.len(),
        {
            let ghost before = self.state@;
            if !self.note_departure() {
                proof {
                    before.lemma_settled();
                }
                break;
            }
            proof {
                before.lemma_noted_settled();
            }
        }
    }

    /// Places a message in the seat at the tail, for every reader that the bus
    /// counts, and moves the tail on.
    fn publish(&mut self, val: T)
        requires
            old(self).wf(),
            old(self).state.roomy(),
        ensures
            final(self).wf(),
            final(self).state@ == old(self).state@.published(val, old(self).state.capacity()),
            final(self).readers == old(self).readers,
            final(self).state.ring[old(self).state.tail as int].holds(val, old(self).readers),
            final(self).state.ring@ == old(self).state.ring@.update(
                old(self).state.tail as int,
                final(self).state.ring[old(self).state.tail as int],
            ),
            final(self).state.len == old(self).state.len,
            final(self).state.closed == old(self).state.closed,
            final(self).state.parked() == old(self).state.parked().update(
                old(self).state.tail as int,
                None,
            ),
            final(self).state.stuck() == (old(self).state.capacity() == 0
                && old(self).state@.audience().len() > 0),
            final(self).state.waiting == old(self).state.waiting,
            final(self).state.unpark == old(self).state.unpark,
    {
        let ghost was = *self;
        let ghost h = self.state@;
        let ghost n = h.log.len() as int;
        let ghost len = self.state.len as int;
        let ghost next = h.published(val, len - 1);
        let tail: usize = self.state.tail;
        proof {
            vstd::arithmetic::div_mod::lemma_mod_bound(n, len);
            crate::position::lemma_next_slot(n, len);
            h.lemma_published(val, len - 1, n);
            h.lemma_finite(0);
        }
        self.state.ring[tail].place(val, self.readers);
        self.rleft[tail] = 0;
        self.state.tail = (tail + 1) % self.state.len;
        proof {
            self.state.history@ = next;
            assert forall|slot: int| 0 <= slot < len implies #[trigger] self.state.seat_wf(slot)
                && self.rleft@[slot] == self.state.missed(slot) by {
                assert(was.state.seat_wf(slot));
                assert(was.rleft@[slot] == was.state.debts()[slot]);
                crate::position::lemma_slot_message(n, len, slot);
                crate::position::lemma_slot_message_step(n, len, slot);
                h.lemma_published(val, len - 1, self.state.message_in(slot));
            }
            assert forall|slot: int| 0 <= slot < len implies #[trigger] self.rleft@[slot]
                == self.state.debts()[slot] by {
                assert(self.state.seat_wf(slot));
            }
            assert forall|id: int| #[trigger] next.counted(id) implies h.counted(id) && next.cursor(
                id,
            ) == (if len == 1 {
                n + 1
            } else {
                h.cursor(id)
            }) by {}
            lemma_event_wf(h, Event::Broadcast(val), len - 1);
            assert forall|i: int| 0 <= i < next.leavers.len() implies #[trigger]
                self.state.departures()[i] == next.cursor(next.leavers[i]) % len by {
                assert(was.state.departures()[i] == h.cursor(h.leavers[i]) % len);
                assert(next.counted(next.leavers[i]));
            }
            assert(self.state.parked() =~= was.state.parked().update(tail as int, None));
        }
    }

    /// Looks through the threads that wait for a message: those that wait at the
    /// tail go on waiting, for the next message, and all others are to be
    /// unparked.
    fn wake_waiting(&mut self)
        requires
            old(self).wf(),
        ensures
            final(self).wf(),
            final(self).state@ == old(self).state@,
            final(self).readers == old(self).readers,
            final(self).state.ring == old(self).state.ring,
            final(self).state.len == old(self).state.len,
            final(self).state.closed == old(self).state.closed,
            final(self).state.parked() == old(self).state.parked(),
            final(self).state.stuck() == old(self).state.stuck(),
            final(self).state.waiters() == staying(old(self).state.waiters(), old(self).state.tail),
            final(self).state.wakeups() == old(self).state.wakeups() + woken(
                old(self).state.waiters(),
                old(self).state.tail,
            ),
    {
        let tail: usize = self.state.tail;
        let ghost was = *self;
        let ghost all = self.state.waiters();
        let ghost mut k: int = 0;
        proof {
            assert(all.skip(0) =~= all);
            assert(all.take(0) =~= Seq::empty());
            reveal_with_fuel(Seq::filter, 1);
            assert(self.cache@ =~= staying(all.take(0), tail));
            assert(self.state.wakeups() =~= was.state.wakeups() + woken(all.take(0), tail));
        }
        loop
            invariant
                0 <= k <= all.len(),
                was.wf(),
                all == was.state.waiters(),
                self.readers == was.readers,
                self.rleft == was.rleft,
                self.state.ring == was.state.ring,
                self.state.len == was.state.len,
                self.state.tail == was.state.tail,
                self.state.closed == was.state.closed,
                self.state.leaving == was.state.leaving,
                self.state.history == was.state.history,
                crate::queue::pairs_linked(self.state.waiting),
                crate::queue::numbers_linked(self.state.unpark),
                self.state.waiters() == all.skip(k),
                self.cache@ == staying(all.take(k), tail),
                self.state.wakeups() == was.state.wakeups() + woken(all.take(k), tail),
            ensures
                k == all.len(),
            decreases all.len() - k,
        {
            match next_pair(&mut self.state.waiting) {
                None => {
                    break;
                },
                Some((t, at)) => {
                    proof {
                        assert(all.take(k + 1).drop_last() =~= all.take(k));
                        assert(all.take(k + 1).last() == (t, at));
                        reveal_with_fuel(Seq::filter, 2);
                        assert(all.skip(k).skip(1) =~= all.skip(k + 1));
                    }
                    if at == tail {
                        self.cache.push((t, at));
                    } else {
                        send_number(&mut self.state.unpark, t);
                        assert(self.state.wakeups() =~= was.state.wakeups() + woken(
                            all.take(k + 1),
                            tail,
                        ));
                    }
                    proof {
                        k = k + 1;
                    }
                },
            }
        }
        assert(all.take(k) =~= all);
        let mut i: usize = 0;
        let count: usize = self.cache.len();
        assert(self.state.waiters() =~= self.cache@.take(0));
        while i < count
            invariant
                i <= count,
                count == self.cache@.len(),
                self.cache@ == staying(all, tail),
                was.wf(),
                self.readers == was.readers,
                self.rleft == was.rleft,
                self.state.ring == was.state.ring,
                self.state.len == was.state.len,
                self.state.tail == was.state.tail,
                self.state.closed == was.state.closed,
                self.state.leaving == was.state.leaving,
                self.state.history == was.state.history,
                self.state.wakeups() == was.state.wakeups() + woken(all, tail),
                crate::queue::pairs_linked(self.state.waiting),
                crate::queue::numbers_linked(self.state.unpark),
                self.state.waiters() == self.cache@.take(i as int),
            decreases count - i,
        {
            send_pair(&mut self.state.waiting, self.cache[i]);
            assert(self.cache@.take(i as int).push(self.cache@[i as int]) =~= self.cache@.take(
                i + 1,
            ));
            i = i + 1;
        }
        assert(self.cache@.take(i as int) =~= self.cache@);
        self.cache.clear();
        proof {
            self.state.lemma_same_books(was.state);
        }
    }

    /// What the history is before a message is placed: the bus takes note of the
    /// readers that have left only if there is no room otherwise.
    pub open spec fn cleared(self) -> History<T> {
        if self.state.roomy() {
            self.state@
        } else {
            self.state@.settled()
        }
    }

    /// What a bus is like once `val` has been placed on it, as compared to
    /// `before`: the seat that was at the tail holds the message for every reader
    /// that the bus counts, and the threads that waited for it are to be
    /// unparked.
    pub open spec fn has_placed(self, before: Bus<T>, val: T) -> bool {
        let seat = before.state.tail as int;
        &&& self.state@ == before.cleared().published(val, before.state.capacity())
        &&& self.readers == before.readers - (before.state@.leavers.len()
            - self.state@.leavers.len())
        &&& self.state.ring[seat].holds(val, self.readers)
        &&& self.state.ring@ == before.state.ring@.update(seat, self.state.ring[seat])
        &&& self.state.len == before.state.len
        &&& self.state.closed == before.state.closed
        &&& self.state.stuck() == (before.state.capacity() == 0
            && before.cleared().audience().len() > 0)
        &&& self.state.parked() == before.state.parked().update(seat, None)
        &&& self.state.waiters() == staying(before.state.waiters(), self.state.tail)
        &&& self.state.wakeups() == before.state.wakeups() + woken(
            before.state.waiters(),
            self.state.tail,
        )
    }

    /// What a full bus is like once it has refused a message, as compared to
    /// `before`. With a ticket the writer waits for the seat after the tail.
    pub open spec fn has_refused(self, before: Bus<T>, ticket: Option<usize>) -> bool {
        &&& self.state@ == before.state@.settled()
        &&& self.readers == before.readers - before.state@.leavers.len()
        &&& self.state.ring@ == before.state.ring@.update(
            before.fence(),
            self.state.ring[before.fence()],
        )
        &&& self.state.ring[before.fence()].state == before.state.ring[before.fence()].state
        &&& self.state.ring[before.fence()].read == before.state.ring[before.fence()].read
        &&& self.state.len == before.state.len
        &&& self.state.closed == before.state.closed
        &&& self.state.stuck() == before.state.stuck()
        &&& self.state.parked() == match ticket {
            Some(t) => before.state.parked().update(before.fence(), Some(t)),
            None => before.state.parked(),
        }
        &&& self.state.waiters() == before.state.waiters()
        &&& self.state.wakeups() == before.state.wakeups()
    }

    /// Noting who has left makes room exactly if all that stood in the way have
    /// left.
    proof fn lemma_settled_room(self, settled: Bus<T>)
        requires
            settled.state@ == self.state@.settled(),
            settled.state.ring == self.state.ring,
            settled.state.len == self.state.len,
        ensures
            settled.state.roomy() <==> self.state.has_room(),
            self.state.roomy() ==> self.state.has_room(),
    {
        let h = self.state@;
        let next = settled.state@;
        assert forall|id: int| #[trigger] next.counted(id) <==> h.live(id) by {}
        assert(next.audience() =~= h.live_readers());
        h.lemma_finite(0);
        vstd::set_lib::lemma_len_subset(h.live_readers(), h.audience());
        if self.state.has_room() && self.state.capacity() != 0 {
            assert forall|id: int| #[trigger] next.counted(id) implies next.unread(id)
                < self.state.capacity() by {
                assert(h.live(id));
                assert(next.cursor(id) == h.cursor(id));
            }
        }
        if settled.state.roomy() && self.state.capacity() != 0 {
            assert forall|id: int| #[trigger] h.live(id) implies h.unread(id)
                < self.state.capacity() by {
                assert(next.counted(id));
                assert(next.cursor(id) == h.cursor(id));
            }
        }
        if self.state.roomy() && self.state.capacity() != 0 {
            assert forall|id: int| #[trigger] h.live(id) implies h.unread(id)
                < self.state.capacity() by {
                assert(h.counted(id));
            }
        }
    }

    /// Places the given value on the bus if there is room, and otherwise hands it
    /// back. With the ticket of a thread, that thread is then registered as
    /// waiting for space.
    pub fn offer(&mut self, val: T, block: Option<usize>) -> (result: Result<(), T>)
        requires
            old(self).wf(),
        ensures
            final(self).wf(),
            old(self).state.has_room() ==> {
                &&& result == Ok::<(), T>(())
                &&& final(self).has_placed(*old(self), val)
            },
            !old(self).state.has_room() ==> {
                &&& result == Err::<(), T>(val)
                &&& final(self).has_refused(*old(self), block)
            },
    {
        let ghost was = *self;
        let tail: usize = self.state.tail;
        proof {
            vstd::arithmetic::div_mod::lemma_mod_bound(
                was.state@.log.len() as int,
                was.state.len as int,
            );
        }
        let fence: usize = (tail + 1) % self.state.len;
        proof {
            was.lemma_fence(fence as int);
        }
        let fence_read: usize = self.state.ring[fence].read;
        if self.readers != 0 && fence_read != self.expect(fence) {
            self.note_departures();
            proof {
                was.lemma_settled_room(*self);
                self.lemma_fence(fence as int);
                self.state.lemma_same_parked(was.state);
            }
            if self.readers != 0 && fence_read != self.expect(fence) {
                let ghost settled = *self;
                assert(settled.state.ring@ =~= was.state.ring@.update(
                    fence as int,
                    settled.state.ring[fence as int],
                ));
                if let Some(ticket) = block {
                    self.state.ring[fence].waiting.swap(Some(Box::new(ticket)));
                    proof {
                        self.state.lemma_parked(settled.state, fence as int);
                        assert(self.state.parked() =~= was.state.parked().update(
                            fence as int,
                            Some(ticket),
                        ));
                    }
                }
                return Err(val);
            }
        } else {
            proof {
                was.lemma_settled_room(
                    Bus {
                        state: BusInner { history: Ghost(was.state@.settled()), ..was.state },
                        ..was
                    },
                );
            }
        }
        assert(self.state@ == was.cleared());
        self.publish(val);
        self.wake_waiting();
        Ok(())
    }

    /// Attempts once to place the given value on the bus.
    ///
    /// If the bus is full, the behavior depends on `block`. Without a ticket the
    /// value is handed back. With the ticket of the current thread, the thread
    /// is registered as waiting for space, and is told to spin or to be parked
    /// before it tries again.
    ///
    /// Note that broadcasts will succeed even if there are no consumers!
    pub fn broadcast_inner(
        &mut self,
        val: T,
        block: Option<usize>,
        backoff: &mut Backoff,
    ) -> (step: BroadcastStep<T>)
        requires
            old(self).wf(),
        ensures
            final(self).wf(),
            old(self).state.has_room() ==> {
                &&& step is Sent
                &&& final(self).has_placed(*old(self), val)
                &&& final(backoff).spent() == old(backoff).spent()
            },
            !old(self).state.has_room() ==> {
                &&& final(self).has_refused(*old(self), block)
                &&& block is None ==> step == BroadcastStep::Full(val) && final(backoff).spent()
                    == old(backoff).spent()
                &&& block is Some && old(backoff).spent() < SPIN_LIMIT ==> step
                    == BroadcastStep::Again(val) && final(backoff).spent() == old(backoff).spent()
                    + 1
                &&& block is Some && old(backoff).spent() >= SPIN_LIMIT ==> step
                    == BroadcastStep::Park(val, SPINTIME as u64) && final(backoff).spent()
                    == old(backoff).spent()
            },
    {
        match self.offer(val, block) {
            Ok(()) => BroadcastStep::Sent,
            Err(val) => {
                if block.is_none() {
                    BroadcastStep::Full(val)
                } else {
                    match backoff.pause() {
                        None => BroadcastStep::Again(val),
                        Some(time) => BroadcastStep::Park(val, time),
                    }
                }
            },
        }
    }

    /// Attempts to place the given value on the bus, and hands it back if the
    /// bus is full.
    pub fn try_broadcast(&mut self, val: T) -> (result: Result<(), T>)
        requires
            old(self).wf(),
        ensures
            final(self).wf(),
            old(self).state.has_room() ==> {
                &&& result == Ok::<(), T>(())
                &&& final(self).has_placed(*old(self), val)
            },
            !old(self).state.has_room() ==> {
                &&& result == Err::<(), T>(val)
                &&& final(self).has_refused(*old(self), None)
            },
    {
        self.offer(val, None)
    }

    /// Attempts once to place the given value on the bus, for a thread that
    /// goes on trying until there is space: it never gives up.
    pub fn broadcast(&mut self, val: T, ticket: usize, backoff: &mut Backoff) -> (step:
        BroadcastStep<T>)
        requires
            old(self).wf(),
        ensures
            final(self).wf(),
            old(self).state.has_room() ==> {
                &&& step is Sent
                &&& final(self).has_placed(*old(self), val)
                &&& final(backoff).spent() == old(backoff).spent()
            },
            !old(self).state.has_room() ==> {
                &&& final(self).has_refused(*old(self), Some(ticket))
                &&& old(backoff).spent() < SPIN_LIMIT ==> step == BroadcastStep::Again(val)
                    && final(backoff).spent() == old(backoff).spent() + 1
                &&& old(backoff).spent() >= SPIN_LIMIT ==> step == BroadcastStep::Park(
                    val,
                    SPINTIME as u64,
                ) && final(backoff).spent() == old(backoff).spent()
            },
    {
        self.broadcast_inner(val, Some(ticket), backoff)
    }

    /// Adds a reader, which will receive every message that is sent from now on.
    pub fn add_rx(&mut self) -> (reader: BusReader<T>)
        requires
            old(self).wf(),
            old(self).readers < usize::MAX,
        ensures
            final(self).wf(),
            final(self).readers == old(self).readers + 1,
            final(self).state == (BusInner {
                history: final(self).state.history,
                ..old(self).state
            }),
            final(self).state@ == old(self).state@.joined(),
            reader.id@ == old(self).state@.cursors.len(),
            final(self).state.parked() == old(self).state.parked(),
            reader.reads(final(self).state),
            !reader.closed,
    {
        let ghost was = *self;
        let ghost h = self.state@;
        let ghost id = h.cursors.len() as int;
        self.readers = self.readers + 1;
        proof {
            let next = h.joined();
            let len = self.state.len as int;
            self.state.history@ = next;
            h.lemma_joined(0);
            assert forall|slot: int|
                #![trigger self.state.seat_wf(slot)]
                #![trigger self.state.missed(slot)]
                0 <= slot < len implies self.state.seat_wf(slot) && self.state.missed(slot)
                == was.state.missed(slot) by {
                assert(was.state.seat_wf(slot));
                crate::position::lemma_slot_message(h.log.len() as int, len, slot);
                h.lemma_joined(was.state.message_in(slot));
            }
            assert(self.state.debts() =~= was.state.debts());
            lemma_event_wf(h, Event::Join, len - 1);
            assert forall|i: int| 0 <= i < next.leavers.len() implies #[trigger]
                self.state.departures()[i] == next.cursor(next.leavers[i]) % len by {
                assert(was.state.departures()[i] == h.cursor(h.leavers[i]) % len);
                assert(h.counted(h.leavers[i]));
            }
            self.state.lemma_same_parked(was.state);
            if next.leavers.contains(id) {
                let i = choose|i: int| 0 <= i < h.leavers.len() && h.leavers[i] == id;
                assert(h.counted(h.leavers[i]));
            }
        }
        BusReader { head: self.state.tail, closed: false, id: Ghost(id), messages: PhantomData }
    }

    /// Returns the number of active consumers currently attached to this bus.
    /// It is not guaranteed that a sent message will reach this number of
    /// consumers, as active consumers may never call `recv` or `try_recv` again
    /// before leaving.
    pub fn rx_count(&self) -> (count: usize)
        requires
            self.wf(),
        ensures
            count == self.state@.live_readers().len(),
    {
        proof {
            self.state@.lemma_live_count(self.state.capacity());
        }
        self.readers - count_numbers(&self.state.leaving)
    }

    /// Whether `state` is the shared state that is left once the writer has given
    /// up its side: it is closed, and all the threads that waited for a message
    /// are to be unparked, in the order in which they began to wait.
    pub open spec fn ends_as(self, state: BusInner<T>) -> bool {
        &&& state == (BusInner {
            closed: true,
            waiting: state.waiting,
            unpark: state.unpark,
            ..self.state
        })
        &&& state.parked() == self.state.parked()
        &&& state.waiters() == Seq::<(usize, usize)>::empty()
        &&& state.wakeups() == self.state.wakeups() + self.state.waiters().map_values(ticket_of())
    }

    /// Gives up the writer's side. The readers can still receive what is on the
    /// bus, and then find it closed; those that wait are to be unparked.
    pub fn close(self) -> (state: BusInner<T>)
        requires
            self.wf(),
        ensures
            state.wf(),
            self.ends_as(state),
    {
        let ghost was = self.state;
        let ghost all = was.waiters();
        let ghost mut k: int = 0;
        let mut state = self.state;
        state.closed = true;
        proof {
            assert(all.skip(0) =~= all);
            assert(state.wakeups() =~= was.wakeups() + all.take(0).map_values(ticket_of()));
        }
        loop
            invariant
                0 <= k <= all.len(),
                state == (BusInner {
                    closed: true,
                    waiting: state.waiting,
                    unpark: state.unpark,
                    ..was
                }),
                crate::queue::pairs_linked(state.waiting),
                crate::queue::numbers_linked(state.unpark),
                state.waiters() == all.skip(k),
                state.wakeups() == was.wakeups() + all.take(k).map_values(ticket_of()),
            ensures
                k == all.len(),
            decreases all.len() - k,
        {
            match next_pair(&mut state.waiting) {
                None => {
                    break;
                },
                Some((t, _)) => {
                    send_number(&mut state.unpark, t);
                    proof {
                        assert(all.skip(k).skip(1) =~= all.skip(k + 1));
                        assert(state.wakeups() =~= was.wakeups() + all.take(k + 1).map_values(
                            ticket_of(),
                        ));
                        k = k + 1;
                    }
                },
            }
        }
        proof {
            assert(all.take(k) =~= all);
            assert(all.skip(k) =~= Seq::empty());
            state.lemma_same_books(was);
        }
        state
    }
}

} // verus!
