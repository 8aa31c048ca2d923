//! The readers' side of a bus.
use crate::history::{lemma_event_wf, Event};
use crate::inner::BusInner;
use crate::queue::{send_number, send_pair};
use crate::seat::handed_over;
use crate::timing::{
    duration_nanoseconds, nanoseconds, parking_time, time_to_park, Backoff, SPINTIME, SPIN_LIMIT,
};
use core::marker::PhantomData;
use core::time::Duration;
use vstd::prelude::*;

verus! {

/// A receiver of messages from the bus.
#[verifier::reject_recursive_types(T)]
pub struct BusReader<T> {
    /// The seat that the reader reads next.
    pub head: usize,
    /// Whether the reader has found out that the writer is gone.
    pub closed: bool,
    /// The reader's number.
    pub id: Ghost<int>,
    /// The messages that the reader receives.
    pub messages: PhantomData<T>,
}

/// What a reader does while there is nothing to read.
#[derive(Clone, Copy)]
pub enum RecvCondition {
    /// It gives up at once.
    Try,
    /// It waits for a message.
    Block,
    /// It waits for a message, but not for longer than this.
    Timeout(Duration),
}

impl RecvCondition {
    /// How long a thread that has spun enough and has nothing to read is to be
    /// parked, if it has waited for `elapsed` nanoseconds and is to wait any longer:
    /// a thread that waits for a limited time gives up once more than this time has
    /// elapsed.
    pub open spec fn patience(self, elapsed: u128) -> Option<int> {
        match self {
            RecvCondition::Timeout(timeout) => parking_time(
                nanoseconds(timeout) as int,
                elapsed as int,
            ),
            _ => Some(SPINTIME as int),
        }
    }

    /// How long a thread that has spun enough is to be parked, in nanoseconds, or
    /// `None` if it gives up.
    pub fn time_to_park(self, elapsed: u128) -> (time: Option<u64>)
        ensures
            match self.patience(elapsed) {
                Some(nanoseconds) => time is Some && time->0 == nanoseconds,
                None => time is None,
            },
    {
        match self {
            RecvCondition::Timeout(timeout) => time_to_park(
                duration_nanoseconds(&timeout),
                elapsed,
            ),
            _ => Some(SPINTIME as u64),
        }
    }
}

/// Why a reader that waits for a limited time receives nothing.
#[derive(Clone, Copy, Debug, PartialEq, Eq, Structural)]
pub enum RecvTimeoutError {
    /// There is nothing to read yet.
    Timeout,
    /// There is nothing to read and there never will be.
    Disconnected,
}

/// Why a reader that does not wait receives nothing.
#[derive(Clone, Copy, Debug, PartialEq, Eq, Structural)]
pub enum TryRecvError {
    /// There is nothing to read yet.
    Empty,
    /// There is nothing to read and there never will be.
    Disconnected,
}

/// Why a reader that waits for as long as it takes receives nothing: there is
/// nothing to read and there never will be.
#[derive(Clone, Copy, Debug, PartialEq, Eq, Structural)]
pub struct RecvError;

/// How far an attempt to receive a message has come.
#[derive(Debug, PartialEq, Eq)]
pub enum RecvStep<R> {
    /// The attempt is over.
    Done(R),
    /// Try again at once.
    Again,
    /// Try again after being parked, at most for as many nanoseconds.
    Park(u64),
}

/// What a thread that receives a message keeps in mind from one try to the next.
pub struct Attempt {
    /// Whether it has seen that the writer is gone.
    pub was_closed: bool,
    /// Whether it has yet to tell the bus that it waits.
    pub first: bool,
    /// Its patience.
    pub backoff: Backoff,
    /// Its ticket.
    pub ticket: usize,
}

impl Attempt {
    /// What the thread with the given ticket has in mind before the first try.
    pub fn new(ticket: usize) -> (attempt: Attempt)
        ensures
            !attempt.was_closed,
            attempt.first,
            attempt.backoff.spent() == 0,
            attempt.ticket == ticket,
    {
        Attempt { was_closed: false, first: true, backoff: Backoff::new(), ticket }
    }

    /// Spins, asks to be parked, or gives up because too much time has elapsed.
    pub fn pause(&mut self, block: RecvCondition, elapsed: u128) -> (step: RecvStep<
        RecvTimeoutError,
    >)
        ensures
            step == waiting_step(block, elapsed, old(self).backoff.spent()),
            final(self).was_closed == old(self).was_closed,
            final(self).first == old(self).first,
            final(self).ticket == old(self).ticket,
            final(self).backoff.spent() == old(self).backoff.spent() + (if old(
                self).backoff.spent() < SPIN_LIMIT {
                1nat
            } else {
                0nat
            }),
    {
        match self.backoff.pause() {
            None => RecvStep::Again,
            Some(_) => match block.time_to_park(elapsed) {
                Some(time) => RecvStep::Park(time),
                None => RecvStep::Done(RecvTimeoutError::Timeout),
            },
        }
    }

    /// Whether nothing is different as compared to `before`.
    pub open spec fn same(self, before: Attempt) -> bool {
        &&& self.was_closed == before.was_closed
        &&& self.first == before.first
        &&& self.backoff.spent() == before.backoff.spent()
        &&& self.ticket == before.ticket
    }
}

/// The outcome for a reader that waits for as long as it takes, among those for
/// a reader that may wait for a limited time.
pub open spec fn unlimited<T>(step: RecvStep<Result<T, RecvError>>) -> RecvStep<
    Result<T, RecvTimeoutError>,
> {
    match step {
        RecvStep::Done(Ok(val)) => RecvStep::Done(Ok(val)),
        RecvStep::Done(Err(_)) => RecvStep::Done(Err(RecvTimeoutError::Disconnected)),
        RecvStep::Again => RecvStep::Again,
        RecvStep::Park(time) => RecvStep::Park(time),
    }
}

/// What the shared state is like once the thread of the attempt `before` has
/// tried to receive a message at position `head` and now waits, as compared to
/// `was`: the first time, it has told the bus so.
pub open spec fn has_registered<T>(
    was: BusInner<T>,
    after: BusInner<T>,
    before: Attempt,
    head: usize,
) -> bool {
    &&& after == (BusInner { waiting: after.waiting, ..was })
    &&& after.waiters() == if before.first {
        was.waiters().push((before.ticket, head))
    } else {
        was.waiters()
    }
}

/// What a thread does that has nothing to read: it spins for a while, then it is
/// parked for a short time over and over, and a thread that waits for a limited
/// time gives up once more than this time has elapsed.
pub open spec fn waiting_step(block: RecvCondition, elapsed: u128, spent: nat) -> RecvStep<
    RecvTimeoutError,
> {
    if spent < SPIN_LIMIT {
        RecvStep::Again
    } else {
        match block.patience(elapsed) {
            Some(time) => RecvStep::Park(time as u64),
            None => RecvStep::Done(RecvTimeoutError::Timeout),
        }
    }
}

/// What came of an attempt to receive a message, where all that came of it is
/// why to give up.
pub open spec fn without_message<T>(step: RecvStep<RecvTimeoutError>) -> RecvStep<
    Result<T, RecvTimeoutError>,
> {
    match step {
        RecvStep::Done(error) => RecvStep::Done(Err(error)),
        RecvStep::Again => RecvStep::Again,
        RecvStep::Park(time) => RecvStep::Park(time),
    }
}

impl<T> BusReader<T> {
    /// Whether this is a live reader of the bus with the given shared state, is
    /// where the bus expects it to be, and takes the bus for closed only if the
    /// writer is gone and everything has been read.
    pub open spec fn reads(self, state: BusInner<T>) -> bool {
        &&& state@.live(self.id@)
        &&& self.head == state@.cursor(self.id@) % state.len as int
        &&& self.closed ==> state.closed && !self.pending(state)
    }

    /// Whether there is a message for the reader.
    pub open spec fn pending(self, state: BusInner<T>) -> bool {
        state@.unread(self.id@) > 0
    }

    /// The message that the reader receives next.
    pub open spec fn next_message(self, state: BusInner<T>) -> T {
        state@.log[state@.cursor(self.id@)]
    }

    /// Whether the reader is the last one to read its message.
    pub open spec fn last(self, state: BusInner<T>) -> bool {
        state.ring[self.head as int].at_last_reader()
    }

    /// What the shared state is like once the reader has received a message, as
    /// compared to `before`. If it was the last reader to read it, the message
    /// is gone from its seat, and the writer that waits for the seat is due to
    /// be unparked.
    pub open spec fn has_received(self, before: BusInner<T>, after: BusInner<T>) -> bool {
        let seat = before.ring[self.head as int];
        &&& after@ == before@.received(self.id@)
        &&& after.ring@ == before.ring@.update(self.head as int, after.ring[self.head as int])
        &&& after.ring[self.head as int].read == seat.read + 1
        &&& after.ring[self.head as int].max() == seat.max()
        &&& after.len == before.len
        &&& after.closed == before.closed
        &&& after.stuck() == before.stuck()
        &&& after.debts() == before.debts()
        &&& after@.audience() == before@.audience()
        &&& after.waiters() == before.waiters()
        &&& self.last(before) ==> {
            &&& after.ring[self.head as int].val() is None
            &&& after.parked() == before.parked().update(self.head as int, None)
            &&& after.wakeups() == match before.parked()[self.head as int] {
                Some(ticket) => before.wakeups().push(ticket),
                None => before.wakeups(),
            }
        }
        &&& !self.last(before) ==> {
            &&& after.ring[self.head as int].val() == seat.val()
            &&& after.parked() == before.parked()
            &&& after.wakeups() == before.wakeups()
        }
    }

    /// The seat that a reader with something to read is at.
    pub proof fn lemma_pending(self, state: BusInner<T>)
        requires
            state.wf(),
            self.reads(state),
        ensures
            self.head < state.len,
            self.pending(state) <==> self.head != state.tail,
            self.pending(state) ==> {
                &&& state.capacity() > 0
                &&& state.message_in(self.head as int) == state@.cursor(self.id@)
                &&& state.ring[self.head as int].readable()
                &&& state.ring[self.head as int].val() == Some(self.next_message(state))
            },
    {
        let h = state@;
        let n = h.log.len() as int;
        let len = state.len as int;
        let c = h.cursor(self.id@);
        assert(h.counted(self.id@));
        vstd::arithmetic::div_mod::lemma_mod_bound(c, len);
        if self.pending(state) {
            if c % len == n % len {
                crate::position::lemma_same_slot(c, n, len);
            }
            crate::position::lemma_message_slot(n, len, c);
            assert(state.seat_wf(self.head as int));
            h.lemma_received(self.id@, c);
        }
    }

    /// The shared state after a message has been taken from the reader's seat.
    proof fn lemma_taken(self, was: BusInner<T>, state: BusInner<T>)
        requires
            was.wf(),
            self.reads(was),
            self.pending(was),
            state.len == was.len,
            state.tail == was.tail,
            state.closed == was.closed,
            state.leaving == was.leaving,
            state.waiting == was.waiting,
            crate::queue::numbers_linked(state.unpark),
            state@ == was@.received(self.id@),
            state.ring@ == was.ring@.update(self.head as int, state.ring[self.head as int]),
            state.ring[self.head as int].max() == was.ring[self.head as int].max(),
            state.ring[self.head as int].read == was.ring[self.head as int].read + 1,
            !was.ring[self.head as int].at_last_reader() ==> state.ring[self.head as int].val()
                == was.ring[self.head as int].val(),
        ensures
            state.wf(),
            state.debts() == was.debts(),
            state.stuck() == was.stuck(),
    {
        self.lemma_pending(was);
        let h = was@;
        let next = state@;
        let n = h.log.len() as int;
        let len = was.len as int;
        let id = self.id@;
        let c = h.cursor(id);
        assert forall|slot: int|
            #![trigger state.seat_wf(slot)]
            #![trigger state.missed(slot)]
            0 <= slot < len implies state.seat_wf(slot) && state.missed(slot) == was.missed(
            slot,
        ) by {
            assert(was.seat_wf(slot));
            crate::position::lemma_slot_message(n, len, slot);
            h.lemma_received(id, was.message_in(slot));
        }
        assert(state.debts() =~= was.debts());
        lemma_event_wf(h, Event::Receive(id), len - 1);
        assert forall|i: int| 0 <= i < next.leavers.len() implies #[trigger] state.departures()[i]
            == next.cursor(next.leavers[i]) % len by {
            assert(was.departures()[i] == h.cursor(h.leavers[i]) % len);
            assert(h.leavers.contains(h.leavers[i]));
        }
    }

    /// Leaves the bus, which will no longer wait for this reader.
    pub fn leave(self, state: &mut BusInner<T>)
        requires
            old(state).wf(),
            self.reads(*old(state)),
        ensures
            final(state).wf(),
            final(state)@ == old(state)@.departed(self.id@),
            final(state).departures() == old(state).departures().push(self.head),
            *final(state) == (BusInner {
                leaving: final(state).leaving,
                history: final(state).history,
                ..*old(state)
            }),
            final(state).debts() == old(state).debts(),
            final(state)@.audience() == old(state)@.audience(),
            final(state).parked() == old(state).parked(),
    {
        let ghost was = *state;
        send_number(&mut state.leaving, self.head);
        proof {
            let h = was@;
            let id = self.id@;
            let next = h.departed(id);
            let len = was.len as int;
            state.history@ = next;
            assert forall|slot: int|
                #![trigger state.seat_wf(slot)]
                #![trigger state.missed(slot)]
                0 <= slot < len implies state.seat_wf(slot) && state.missed(slot) == was.missed(
                slot,
            ) by {
                assert(was.seat_wf(slot));
                assert(next.expecting(was.message_in(slot)) =~= h.expecting(was.message_in(slot)));
            }
            assert(state.debts() =~= was.debts());
            state.lemma_same_parked(was);
            assert(next.audience() =~= h.audience());
            lemma_event_wf(h, Event::Leave(id), len - 1);
            assert forall|i: int| 0 <= i < next.leavers.len() implies #[trigger]
                state.departures()[i] == next.cursor(next.leavers[i]) % len by {
                if i < h.leavers.len() {
                    assert(was.departures()[i] == h.cursor(h.leavers[i]) % len);
                }
            }
        }
    }
}

impl<T: Clone> BusReader<T> {
    /// Whether all that the reader can do is to wait.
    pub open spec fn must_wait(self, state: BusInner<T>, block: RecvCondition) -> bool {
        !self.closed && !self.pending(state) && !state.closed && !(block is Try)
    }

    /// What has become of the reader, the shared state and the attempt once the
    /// reader has looked for a message, as compared to `before`, `was` and
    /// `earlier`, and with what outcome; there is none if it must wait.
    pub open spec fn has_looked(
        self,
        before: BusReader<T>,
        was: BusInner<T>,
        state: BusInner<T>,
        block: RecvCondition,
        earlier: Attempt,
        attempt: Attempt,
        seen: Option<RecvStep<Result<T, RecvTimeoutError>>>,
    ) -> bool {
        if before.closed {
            &&& seen == Some(RecvStep::Done(Err::<T, _>(RecvTimeoutError::Disconnected)))
            &&& self == before
            &&& state == was
            &&& attempt.same(earlier)
        } else if before.pending(was) {
            &&& seen matches Some(RecvStep::Done(Ok(val))) && handed_over(
                before.next_message(was),
                val,
                before.last(was),
            )
            &&& !self.closed
            &&& before.has_received(was, state)
            &&& attempt.same(earlier)
        } else if was.closed {
            &&& seen == Some(
                if earlier.was_closed {
                    RecvStep::Done(Err::<T, _>(RecvTimeoutError::Disconnected))
                } else {
                    RecvStep::Again
                },
            )
            &&& self == (BusReader { closed: earlier.was_closed, ..before })
            &&& state == was
            &&& attempt.same((Attempt { was_closed: true, ..earlier }))
        } else if block is Try {
            &&& seen == Some(RecvStep::Done(Err::<T, _>(RecvTimeoutError::Timeout)))
            &&& self == before
            &&& state == was
            &&& attempt.same(earlier)
        } else {
            &&& seen is None
            &&& self == before
            &&& has_registered(was, state, earlier, before.head)
            &&& attempt.same((Attempt { first: false, ..earlier }))
        }
    }

    /// What has become of the reader, the shared state and the attempt once the
    /// reader has tried to receive a message, as compared to `before`, `was` and
    /// `earlier`, and with what outcome: if it must wait, it spins, is to be
    /// parked, or gives up.
    pub open spec fn has_tried(
        self,
        before: BusReader<T>,
        was: BusInner<T>,
        state: BusInner<T>,
        block: RecvCondition,
        elapsed: u128,
        earlier: Attempt,
        attempt: Attempt,
        step: RecvStep<Result<T, RecvTimeoutError>>,
    ) -> bool {
        if before.must_wait(was, block) {
            &&& step == without_message::<T>(
                waiting_step(block, elapsed, earlier.backoff.spent()),
            )
            &&& self == before
            &&& has_registered(was, state, earlier, before.head)
            &&& !attempt.first
            &&& attempt.was_closed == earlier.was_closed
            &&& attempt.ticket == earlier.ticket
            &&& attempt.backoff.spent() == earlier.backoff.spent() + (if earlier.backoff.spent()
                < SPIN_LIMIT {
                1nat
            } else {
                0nat
            })
        } else {
            self.has_looked(before, was, state, block, earlier, attempt, Some(step))
        }
    }

    /// What has become of the reader and the shared state once the reader has
    /// tried to receive a message without waiting, as compared to `before` and
    /// `was`, and with what result.
    pub open spec fn has_polled(
        self,
        before: BusReader<T>,
        was: BusInner<T>,
        state: BusInner<T>,
        result: Result<T, TryRecvError>,
    ) -> bool {
        if before.pending(was) {
            &&& result matches Ok(val) && handed_over(
                before.next_message(was),
                val,
                before.last(was),
            )
            &&& !self.closed
            &&& before.has_received(was, state)
        } else {
            &&& result == Err::<T, _>(
                if was.closed {
                    TryRecvError::Disconnected
                } else {
                    TryRecvError::Empty
                },
            )
            &&& self == (BusReader { closed: was.closed, ..before })
            &&& state == was
        }
    }

    /// Receives the next message, where there is one.
    fn take_next(&mut self, state: &mut BusInner<T>) -> (val: T)
        requires
            old(state).wf(),
            old(self).reads(*old(state)),
            old(self).pending(*old(state)),
        ensures
            handed_over(old(self).next_message(*old(state)), val, old(self).last(*old(state))),
            final(self).closed == old(self).closed,
            final(self).id == old(self).id,
            final(self).reads(*final(state)),
            final(state).wf(),
            old(self).has_received(*old(state), *final(state)),
    {
        let ghost was = *state;
        let ghost reader = *self;
        proof {
            self.lemma_pending(*state);
        }
        let head: usize = self.head;
        let (val, waiting) = state.ring[head].take();
        if let Some(ticket) = waiting {
            send_number(&mut state.unpark, ticket);
        }
        self.head = (head + 1) % state.len;
        proof {
            state.history@ = was@.received(self.id@);
            reader.lemma_taken(was, *state);
            was@.lemma_received(self.id@, 0);
            crate::position::lemma_next_slot(was@.cursor(self.id@), was.len as int);
            assert(state.parked() =~= if was.ring[head as int].at_last_reader() {
                was.parked().update(head as int, None)
            } else {
                was.parked()
            });
        }
        val
    }

    /// Looks for a message, and tells the bus if there is nothing to do but wait.
    ///
    /// It goes by the following order:
    /// 1. A reader that has found the bus closed is disconnected.
    /// 2. If there is something to read, the reader receives it.
    /// 3. If not, and the writer is gone, the reader looks once more, and is
    ///    then disconnected.
    /// 4. If not, and the reader does not wait, it gives up.
    /// 5. Otherwise the thread tells the bus that it waits.
    pub fn look(
        &mut self,
        state: &mut BusInner<T>,
        block: RecvCondition,
        attempt: &mut Attempt,
    ) -> (seen: Option<RecvStep<Result<T, RecvTimeoutError>>>)
        requires
            old(state).wf(),
            old(self).reads(*old(state)),
        ensures
            final(state).wf(),
            final(self).reads(*final(state)),
            final(self).id == old(self).id,
            final(self).has_looked(
                *old(self),
                *old(state),
                *final(state),
                block,
                *old(attempt),
                *final(attempt),
                seen,
            ),
    {
        if self.closed {
            return Some(RecvStep::Done(Err(RecvTimeoutError::Disconnected)));
        }
        proof {
            self.lemma_pending(*state);
        }
        if state.tail != self.head {
            return Some(RecvStep::Done(Ok(self.take_next(state))));
        }
        if state.closed {
            if !attempt.was_closed {
                attempt.was_closed = true;
                return Some(RecvStep::Again);
            }
            self.closed = true;
            return Some(RecvStep::Done(Err(RecvTimeoutError::Disconnected)));
        }
        if let RecvCondition::Try = block {
            return Some(RecvStep::Done(Err(RecvTimeoutError::Timeout)));
        }
        let ghost was = *state;
        if attempt.first {
            send_pair(&mut state.waiting, (attempt.ticket, self.head));
            attempt.first = false;
            proof {
                state.lemma_same_books(was);
            }
        }
        None
    }

    /// Tries once to receive a message: the reader looks for one, and the thread
    /// that must wait spins, is to be parked, or gives up because too much time
    /// has elapsed.
    pub fn recv_inner(
        &mut self,
        state: &mut BusInner<T>,
        block: RecvCondition,
        elapsed: u128,
        attempt: &mut Attempt,
    ) -> (step: RecvStep<Result<T, RecvTimeoutError>>)
        requires
            old(state).wf(),
            old(self).reads(*old(state)),
        ensures
            final(state).wf(),
            final(self).reads(*final(state)),
            final(self).id == old(self).id,
            final(self).has_tried(
                *old(self),
                *old(state),
                *final(state),
                block,
                elapsed,
                *old(attempt),
                *final(attempt),
                step,
            ),
    {
        match self.look(state, block, attempt) {
            Some(step) => step,
            None => match attempt.pause(block, elapsed) {
                RecvStep::Done(error) => RecvStep::Done(Err(error)),
                RecvStep::Again => RecvStep::Again,
                RecvStep::Park(time) => RecvStep::Park(time),
            },
        }
    }

    /// Receives a message if there is one, without waiting.
    pub fn try_recv(&mut self, state: &mut BusInner<T>) -> (result: Result<T, TryRecvError>)
        requires
            old(state).wf(),
            old(self).reads(*old(state)),
        ensures
            final(state).wf(),
            final(self).reads(*final(state)),
            final(self).id == old(self).id,
            final(self).has_polled(*old(self), *old(state), *final(state), result),
    {
        let mut attempt = Attempt::new(0);
        let mut step = self.recv_inner(state, RecvCondition::Try, 0, &mut attempt);
        if let RecvStep::Again = step {
            step = self.recv_inner(state, RecvCondition::Try, 0, &mut attempt);
        }
        match step {
            RecvStep::Done(Ok(val)) => Ok(val),
            RecvStep::Done(Err(RecvTimeoutError::Timeout)) => Err(TryRecvError::Empty),
            RecvStep::Done(Err(RecvTimeoutError::Disconnected)) => Err(TryRecvError::Disconnected),
            _ => vstd::pervasive::unreached(),
        }
    }

    /// Tries once to receive a message, for a thread that waits for one for as
    /// long as it takes: it never gives up.
    pub fn recv(&mut self, state: &mut BusInner<T>, attempt: &mut Attempt) -> (step: RecvStep<
        Result<T, RecvError>,
    >)
        requires
            old(state).wf(),
            old(self).reads(*old(state)),
        ensures
            final(state).wf(),
            final(self).reads(*final(state)),
            final(self).id == old(self).id,
            final(self).has_tried(
                *old(self),
                *old(state),
                *final(state),
                RecvCondition::Block,
                0,
                *old(attempt),
                *final(attempt),
                unlimited(step),
            ),
    {
        match self.recv_inner(state, RecvCondition::Block, 0, attempt) {
            RecvStep::Done(Ok(val)) => RecvStep::Done(Ok(val)),
            RecvStep::Done(Err(RecvTimeoutError::Disconnected)) => RecvStep::Done(Err(RecvError)),
            RecvStep::Again => RecvStep::Again,
            RecvStep::Park(time) => RecvStep::Park(time),
            _ => vstd::pervasive::unreached(),
        }
    }

    /// Tries once to receive a message, for a thread that waits for one no
    /// longer than `timeout`, and has done so for `elapsed` nanoseconds.
    pub fn recv_timeout(
        &mut self,
        state: &mut BusInner<T>,
        timeout: Duration,
        elapsed: u128,
        attempt: &mut Attempt,
    ) -> (step: RecvStep<Result<T, RecvTimeoutError>>)
        requires
            old(state).wf(),
            old(self).reads(*old(state)),
        ensures
            final(state).wf(),
            final(self).reads(*final(state)),
            final(self).id == old(self).id,
            final(self).has_tried(
                *old(self),
                *old(state),
                *final(state),
                RecvCondition::Timeout(timeout),
                elapsed,
                *old(attempt),
                *final(attempt),
                step,
            ),
    {
        self.recv_inner(state, RecvCondition::Timeout(timeout), elapsed, attempt)
    }
}

} // verus!
