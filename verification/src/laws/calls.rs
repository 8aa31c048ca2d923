//! What a call gives back and what it leaves behind, told of any call that returns.
//!
//! Each law speaks of one function: of what it was called with, of what it returned,
//! and of what every reader has to come before and after.
use super::outcomes::{
    law_closing_closes, law_parking_uses_what_is_left, law_placing_reaches_every_reader,
    law_receiving_takes_away_the_first, law_refusing_touches_no_reader,
    law_room_is_where_nobody_is_full, law_time_that_is_up_ends_the_wait,
    law_unread_is_what_is_to_come, law_what_a_look_comes_to, law_what_a_poll_comes_to,
    law_what_a_seat_gives, law_what_a_seat_holds, law_what_a_seat_lets_fetch,
    law_what_a_try_comes_to, law_what_a_try_leaves_behind, law_what_counting_does,
    law_where_a_reader_is, on_bus, to_come,
};
use crate::atomic_option::AtomicOption;
use crate::bus::{BroadcastStep, Bus};
use crate::history::History;
use crate::inner::BusInner;
use crate::iter::{BusIntoIter, BusIter};
use crate::queue::{numbers_queued, pairs_queued};
use crate::reader::{
    Attempt, BusReader, RecvCondition, RecvError, RecvStep, RecvTimeoutError, TryRecvError,
};
use crate::seat::{Seat, SeatState};
use crate::timing::{nanoseconds, time_to_park, Backoff, SPINTIME, SPIN_LIMIT};
use core::time::Duration;
use vstd::pervasive::strictly_cloned;
use vstd::prelude::*;

verus! {

/// Whether some reader stands in the way of another message: it has as many messages
/// to come as the bus can hold. On a bus that can hold none, every reader does once a
/// message was for somebody.
pub open spec fn full<T>(state: BusInner<T>) -> bool {
    if state.len > 1 {
        exists|id: int| #[trigger]
            on_bus(state.history@, id) && to_come(state.history@, id).len() >= state.len - 1
    } else {
        state.ring@[0].state.0.max > 0 && exists|id: int| #[trigger] on_bus(state.history@, id)
    }
}

/// Whether `next` differs from `h` in that every reader on the bus has `val` to come
/// after everything else, and in nothing else about who is on it.
pub open spec fn added_for_all<T>(h: History<T>, next: History<T>, val: T) -> bool {
    &&& forall|id: int| #[trigger] on_bus(next, id) <==> on_bus(h, id)
    &&& forall|id: int| #[trigger]
        on_bus(h, id) ==> to_come(next, id) == to_come(h, id).push(val)
}

/// Whether the same readers are on the bus in `h` and in `next`, with the same
/// messages to come.
pub open spec fn same_for_all<T>(h: History<T>, next: History<T>) -> bool {
    &&& forall|id: int| #[trigger] on_bus(next, id) <==> on_bus(h, id)
    &&& forall|id: int| #[trigger] on_bus(h, id) ==> to_come(next, id) == to_come(h, id)
}

/// Whether `next` differs from `h` in that reader `reader` has received the first
/// message that it had to come, and in nothing else about who is on the bus.
pub open spec fn received_by<T>(h: History<T>, next: History<T>, reader: int) -> bool {
    &&& forall|id: int| #[trigger] on_bus(next, id) <==> on_bus(h, id)
    &&& forall|id: int| #[trigger]
        on_bus(h, id) ==> to_come(next, id) == if id == reader {
            to_come(h, id).skip(1)
        } else {
            to_come(h, id)
        }
}

/// A message is accepted exactly if the bus is not full, and an accepted message is
/// one more to come for everybody.
proof fn lemma_offered<T>(before: Bus<T>, now: Bus<T>, val: T, ticket: Option<usize>)
    requires
        before.wf(),
        now.wf(),
        before.state.has_room() ==> now.has_placed(before, val),
        !before.state.has_room() ==> now.has_refused(before, ticket),
    ensures
        before.state.has_room() <==> !full(before.state),
        !full(before.state) && before.state.len > 1 ==> added_for_all(
            before.state.history@,
            now.state.history@,
            val,
        ),
        !full(before.state) ==> now.state.history@.log == before.state.history@.log.push(val),
        full(before.state) || before.state.len == 1 ==> same_for_all(
            before.state.history@,
            now.state.history@,
        ),
        now.readers - numbers_queued(now.state.leaving).len() == before.readers
            - numbers_queued(before.state.leaving).len(),
{
    let h = before.state.history@;
    law_room_is_where_nobody_is_full(before.state);
    if before.state.has_room() {
        law_placing_reaches_every_reader(before, now, val);
        if before.state.len == 1 {
            assert forall|id: int| #[trigger] on_bus(h, id) implies to_come(now.state.history@, id)
                == to_come(h, id) by {
                law_unread_is_what_is_to_come(h, id, 0);
                assert(to_come(h, id) =~= Seq::empty());
            }
        }
    } else {
        law_refusing_touches_no_reader(before, now, ticket);
    }
}

/// A new bus has one more seat than it can hold messages, all of them free; nobody is
/// on it, nothing was sent over it, and nobody waits.
pub proof fn law_new_bus_is_empty<T>(len: usize, bus: Bus<T>)
    requires
        len < usize::MAX,
        call_ensures(Bus::<T>::new, (len,), bus),
    ensures
        bus.wf(),
        bus.state.len == len + 1,
        bus.state.ring@.len() == len + 1,
        forall|slot: int|
            0 <= slot < len + 1 ==> {
                let seat = #[trigger] bus.state.ring@[slot];
                &&& seat.state.0.max == 0
                &&& seat.state.0.val is None
                &&& seat.read == 0
                &&& seat.waiting@ is None
            },
        bus.state.tail == 0,
        !bus.state.closed,
        bus.readers == 0,
        bus.state.history@.log == Seq::<T>::empty(),
        bus.state.history@.cursors.len() == 0,
        forall|id: int| !#[trigger] on_bus(bus.state.history@, id),
        numbers_queued(bus.state.leaving) == Seq::<usize>::empty(),
        pairs_queued(bus.state.waiting) == Seq::<(usize, usize)>::empty(),
        numbers_queued(bus.state.unpark) == Seq::<usize>::empty(),
        !full(bus.state),
{
    assert forall|slot: int| 0 <= slot < len + 1 implies {
        let seat = #[trigger] bus.state.ring@[slot];
        &&& seat.state.0.max == 0
        &&& seat.state.0.val is None
        &&& seat.read == 0
        &&& seat.waiting@ is None
    } by {
        assert(bus.state.ring[slot].max() == 0);
        assert(bus.state.parked()[slot] == bus.state.ring[slot].waiting@);
    }
    vstd::arithmetic::div_mod::lemma_small_mod(0, (len + 1) as nat);
    assert(numbers_queued(bus.state.leaving) =~= Seq::empty());
}

/// An offer is taken exactly if the bus is not full. One that is taken is one more
/// message to come for everybody, after all others; one that is not is handed back,
/// and everybody has the same messages to come.
pub proof fn law_offer<T>(bus: &mut Bus<T>, val: T, block: Option<usize>, result: Result<(), T>)
    requires
        old(bus).wf(),
        call_ensures(Bus::<T>::offer, (bus, val, block), result),
    ensures
        final(bus).wf(),
        result is Ok <==> !full(old(bus).state),
        result matches Err(back) ==> back == val,
        result is Ok && old(bus).state.len > 1 ==> added_for_all(
            old(bus).state.history@,
            final(bus).state.history@,
            val,
        ),
        result is Err || old(bus).state.len == 1 ==> same_for_all(
            old(bus).state.history@,
            final(bus).state.history@,
        ),
        result is Ok ==> final(bus).has_placed(*old(bus), val),
        result is Err ==> final(bus).has_refused(*old(bus), block),
{
    lemma_offered(*old(bus), *final(bus), val, block);
}

/// A broadcast that does not wait is an offer of a writer that does not wait.
pub proof fn law_try_broadcast<T>(bus: &mut Bus<T>, val: T, result: Result<(), T>)
    requires
        old(bus).wf(),
        call_ensures(Bus::<T>::try_broadcast, (bus, val), result),
    ensures
        final(bus).wf(),
        result is Ok <==> !full(old(bus).state),
        result matches Err(back) ==> back == val,
        result is Ok && old(bus).state.len > 1 ==> added_for_all(
            old(bus).state.history@,
            final(bus).state.history@,
            val,
        ),
        result is Err || old(bus).state.len == 1 ==> same_for_all(
            old(bus).state.history@,
            final(bus).state.history@,
        ),
        result is Ok ==> final(bus).has_placed(*old(bus), val),
        result is Err ==> final(bus).has_refused(*old(bus), None),
{
    lemma_offered(*old(bus), *final(bus), val, None);
}

/// A step of a broadcast sends the message exactly if the bus is not full. Otherwise
/// the message comes back with what to do: a writer that waits tries again at once as
/// long as it may spin, and is then to be parked; one that does not wait is told that
/// the bus is full.
pub proof fn law_broadcast_step<T>(
    bus: &mut Bus<T>,
    val: T,
    block: Option<usize>,
    backoff: &mut Backoff,
    step: BroadcastStep<T>,
)
    requires
        old(bus).wf(),
        call_ensures(Bus::<T>::broadcast_inner, (bus, val, block, backoff), step),
    ensures
        final(bus).wf(),
        step is Sent <==> !full(old(bus).state),
        step is Sent && old(bus).state.len > 1 ==> added_for_all(
            old(bus).state.history@,
            final(bus).state.history@,
            val,
        ),
        !(step is Sent) || old(bus).state.len == 1 ==> same_for_all(
            old(bus).state.history@,
            final(bus).state.history@,
        ),
        full(old(bus).state) ==> step == if block is None {
            BroadcastStep::Full(val)
        } else if old(backoff).spent() < SPIN_LIMIT {
            BroadcastStep::Again(val)
        } else {
            BroadcastStep::Park(val, SPINTIME as u64)
        },
        final(backoff).spent() == old(backoff).spent() + if step is Again {
            1nat
        } else {
            0nat
        },
        step is Sent ==> final(bus).has_placed(*old(bus), val),
        !(step is Sent) ==> final(bus).has_refused(*old(bus), block),
{
    lemma_offered(*old(bus), *final(bus), val, block);
}

/// A step of a broadcast that waits is a step of a writer with a ticket: the message
/// is sent exactly if the bus is not full, and the writer never gives up.
pub proof fn law_broadcast<T>(
    bus: &mut Bus<T>,
    val: T,
    ticket: usize,
    backoff: &mut Backoff,
    step: BroadcastStep<T>,
)
    requires
        old(bus).wf(),
        call_ensures(Bus::<T>::broadcast, (bus, val, ticket, backoff), step),
    ensures
        final(bus).wf(),
        step is Sent <==> !full(old(bus).state),
        !(step is Full),
        step is Sent && old(bus).state.len > 1 ==> added_for_all(
            old(bus).state.history@,
            final(bus).state.history@,
            val,
        ),
        !(step is Sent) || old(bus).state.len == 1 ==> same_for_all(
            old(bus).state.history@,
            final(bus).state.history@,
        ),
        full(old(bus).state) ==> step == if old(backoff).spent() < SPIN_LIMIT {
            BroadcastStep::Again(val)
        } else {
            BroadcastStep::Park(val, SPINTIME as u64)
        },
        final(backoff).spent() == old(backoff).spent() + if step is Again {
            1nat
        } else {
            0nat
        },
        step is Sent ==> final(bus).has_placed(*old(bus), val),
        !(step is Sent) ==> final(bus).has_refused(*old(bus), Some(ticket)),
{
    lemma_offered(*old(bus), *final(bus), val, Some(ticket));
}

/// A reader that joins is one that was never on the bus. It has nothing to come yet,
/// it is at the tail, and nobody else is touched.
pub proof fn law_add_rx<T>(bus: &mut Bus<T>, reader: BusReader<T>)
    requires
        old(bus).wf(),
        old(bus).readers < usize::MAX,
        call_ensures(Bus::<T>::add_rx, (bus,), reader),
    ensures
        final(bus).wf(),
        final(bus).readers == old(bus).readers + 1,
        !reader.closed,
        reader.reads(final(bus).state),
        reader.head == old(bus).state.tail,
        !on_bus(old(bus).state.history@, reader.id@),
        forall|id: int| #[trigger]
            on_bus(final(bus).state.history@, id) <==> on_bus(old(bus).state.history@, id) || id
                == reader.id@,
        to_come(final(bus).state.history@, reader.id@).len() == 0,
        forall|id: int| #[trigger]
            on_bus(old(bus).state.history@, id) ==> to_come(final(bus).state.history@, id)
                == to_come(old(bus).state.history@, id),
        final(bus).state.ring == old(bus).state.ring,
        final(bus).state.len == old(bus).state.len,
        final(bus).state.tail == old(bus).state.tail,
        final(bus).state.closed == old(bus).state.closed,
        final(bus).state.leaving == old(bus).state.leaving,
        final(bus).state.waiting == old(bus).state.waiting,
        final(bus).state.unpark == old(bus).state.unpark,
{
    let h = old(bus).state.history@;
    let id = reader.id@;
    if h.leavers.contains(id) {
        let i = choose|i: int| 0 <= i < h.leavers.len() && h.leavers[i] == id;
        assert(h.counted(h.leavers[i]));
    }
}

/// A reader that leaves is no longer on the bus, and nobody else is touched. The bus
/// is told where the reader was.
pub proof fn law_leave<T>(reader: BusReader<T>, state: &mut BusInner<T>)
    requires
        old(state).wf(),
        reader.reads(*old(state)),
        call_ensures(BusReader::<T>::leave, (reader, state), ()),
    ensures
        final(state).wf(),
        forall|id: int| #[trigger]
            on_bus(final(state).history@, id) <==> on_bus(old(state).history@, id) && id
                != reader.id@,
        forall|id: int| #[trigger]
            on_bus(old(state).history@, id) ==> to_come(final(state).history@, id) == to_come(
                old(state).history@,
                id,
            ),
        numbers_queued(final(state).leaving) == numbers_queued(old(state).leaving).push(
            reader.head,
        ),
        final(state).ring == old(state).ring,
        final(state).len == old(state).len,
        final(state).tail == old(state).tail,
        final(state).closed == old(state).closed,
        final(state).waiting == old(state).waiting,
        final(state).unpark == old(state).unpark,
{
    let h = old(state).history@;
    let next = final(state).history@;
    assert(next.leavers[next.leavers.len() - 1] == reader.id@);
    assert forall|id: int| next.leavers.contains(id) <==> h.leavers.contains(id) || id
        == reader.id@ by {
        if h.leavers.contains(id) {
            let i = choose|i: int| 0 <= i < h.leavers.len() && h.leavers[i] == id;
            assert(next.leavers[i] == id);
        }
    }
}

/// The number of readers that a bus reports is the number of readers that are on it.
pub proof fn law_rx_count<T>(bus: &Bus<T>, count: usize)
    requires
        bus.wf(),
        call_ensures(Bus::<T>::rx_count, (bus,), count),
    ensures
        count == Set::new(|id: int| on_bus(bus.state.history@, id)).len(),
{
    assert(Set::new(|id: int| on_bus(bus.state.history@, id))
        =~= bus.state.history@.live_readers());
}

/// The reads that a seat is expected to have are those that it was written for, less
/// those that it will miss: those that it has had, and those of the readers that the
/// bus counts and that have the seat's message to come.
pub proof fn law_expect<T>(bus: &Bus<T>, at: usize, reads: usize, m: int)
    requires
        bus.wf(),
        at < bus.state.len,
        call_ensures(Bus::<T>::expect, (bus, at), reads),
    ensures
        reads == bus.state.ring@[at as int].state.0.max - bus.rleft@[at as int],
        bus.state.len > 1 && bus.state.history@.log.len() - bus.state.len <= m
            < bus.state.history@.log.len() && at == m % bus.state.len as int ==> reads
            == bus.state.ring@[at as int].read + Set::new(
            |id: int|
                0 <= id < bus.state.history@.cursors.len()
                    && bus.state.history@.cursors[id] is Some && bus.state.history@.cursors[id]->0
                    <= m,
        ).len(),
{
    let h = bus.state.history@;
    if h.log.len() - bus.state.len <= m < h.log.len() {
        crate::position::lemma_message_slot(h.log.len() as int, bus.state.len as int, m);
    }
    assert(h.expecting(m) =~= Set::new(
        |id: int| 0 <= id < h.cursors.len() && h.cursors[id] is Some && h.cursors[id]->0 <= m,
    ));
}

/// Giving up the writer's side closes the bus, always. Everybody stays on it with the
/// same messages to come, and everybody who waited is due.
pub proof fn law_close<T>(bus: Bus<T>, state: BusInner<T>)
    requires
        bus.wf(),
        call_ensures(Bus::<T>::close, (bus,), state),
    ensures
        state.wf(),
        state.closed,
        same_for_all(bus.state.history@, state.history@),
        state.ring == bus.state.ring,
        state.len == bus.state.len,
        state.tail == bus.state.tail,
        state.leaving == bus.state.leaving,
        pairs_queued(state.waiting) == Seq::<(usize, usize)>::empty(),
        numbers_queued(state.unpark) == numbers_queued(bus.state.unpark) + pairs_queued(
            bus.state.waiting,
        ).map_values(|waiter: (usize, usize)| waiter.0),
        forall|reader: BusReader<T>| #[trigger] reader.reads(bus.state) ==> reader.reads(state),
{
    law_closing_closes(bus, state);
    assert forall|reader: BusReader<T>| #[trigger] reader.reads(bus.state) implies reader.reads(
        state,
    ) by {
        law_where_a_reader_is(reader, bus.state);
        law_where_a_reader_is(reader, state);
    }
}

/// The threads that are due are handed out one by one, the one that has been due for
/// longest first, and nothing else is touched.
pub proof fn law_next_unpark<T>(state: &mut BusInner<T>, ticket: Option<usize>)
    requires
        old(state).wf(),
        call_ensures(BusInner::<T>::next_unpark, (state,), ticket),
    ensures
        final(state).wf(),
        ticket is Some <==> numbers_queued(old(state).unpark).len() > 0,
        ticket is Some ==> numbers_queued(old(state).unpark) == seq![ticket->0] + numbers_queued(
            final(state).unpark,
        ),
        ticket is None ==> numbers_queued(final(state).unpark) == numbers_queued(
            old(state).unpark,
        ),
        *final(state) == (BusInner { unpark: final(state).unpark, ..*old(state) }),
{
    if numbers_queued(old(state).unpark).len() > 0 {
        assert(numbers_queued(old(state).unpark) =~= seq![ticket->0] + numbers_queued(
            final(state).unpark,
        ));
    }
}

/// What receiving without waiting gives: the first message to come, if there is one.
/// If there is none, the reader is disconnected exactly if the writer is gone, and
/// finds the bus empty exactly if the writer is there.
pub proof fn law_try_recv<T: Clone>(
    reader: &mut BusReader<T>,
    state: &mut BusInner<T>,
    result: Result<T, TryRecvError>,
)
    requires
        old(state).wf(),
        old(reader).reads(*old(state)),
        call_ensures(BusReader::<T>::try_recv, (reader, state), result),
    ensures
        final(state).wf(),
        final(reader).reads(*final(state)),
        final(reader).id == old(reader).id,
        ({
            let left = to_come(old(state).history@, old(reader).id@);
            &&& result is Ok <==> left.len() > 0
            &&& result matches Ok(val) ==> cloned(left[0], val) && received_by(
                old(state).history@,
                final(state).history@,
                old(reader).id@,
            )
            &&& result == Err::<T, _>(TryRecvError::Disconnected) <==> left.len() == 0 && old(
                state,
            ).closed
            &&& result == Err::<T, _>(TryRecvError::Empty) <==> left.len() == 0 && !old(
                state,
            ).closed
            &&& result is Err ==> *final(state) == *old(state) && final(reader).head == old(
                reader,
            ).head
        }),
        final(reader).has_polled(*old(reader), *old(state), *final(state), result),
{
    law_what_a_poll_comes_to(*old(reader), *final(reader), *old(state), *final(state), result);
    if result is Ok {
        law_receiving_takes_away_the_first(*old(state), *final(state), *old(reader));
    }
}

/// A try, told by what is to come: the reader gets the first message if and only if
/// there is one, and nobody else is touched either way.
proof fn lemma_tried<T: Clone>(
    before: BusReader<T>,
    now: BusReader<T>,
    was: BusInner<T>,
    state: BusInner<T>,
    block: RecvCondition,
    elapsed: u128,
    earlier: Attempt,
    attempt: Attempt,
    step: RecvStep<Result<T, RecvTimeoutError>>,
)
    requires
        was.wf(),
        before.reads(was),
        state.wf(),
        now.reads(state),
        now.id == before.id,
        now.has_tried(before, was, state, block, elapsed, earlier, attempt, step),
    ensures
        (step matches RecvStep::Done(Ok(_))) <==> to_come(was.history@, before.id@).len() > 0,
        step matches RecvStep::Done(Ok(val)) ==> cloned(
            to_come(was.history@, before.id@)[0],
            val,
        ) && received_by(was.history@, state.history@, before.id@),
        !(step matches RecvStep::Done(Ok(_))) ==> same_for_all(was.history@, state.history@),
        step == RecvStep::Done(Err::<T, _>(RecvTimeoutError::Disconnected)) <==> to_come(
            was.history@,
            before.id@,
        ).len() == 0 && was.closed && (before.closed || earlier.was_closed),
{
    law_what_a_try_comes_to(before, now, was, state, block, elapsed, earlier, attempt, step);
    law_what_a_try_leaves_behind(before, now, was, state, block, elapsed, earlier, attempt, step);
    if to_come(was.history@, before.id@).len() > 0 {
        law_receiving_takes_away_the_first(was, state, before);
    }
}

/// What looking for a message gives: the first message to come, if there is one, and
/// otherwise what is to be done without one.
pub proof fn law_look<T: Clone>(
    reader: &mut BusReader<T>,
    state: &mut BusInner<T>,
    block: RecvCondition,
    attempt: &mut Attempt,
    seen: Option<RecvStep<Result<T, RecvTimeoutError>>>,
)
    requires
        old(state).wf(),
        old(reader).reads(*old(state)),
        call_ensures(BusReader::<T>::look, (reader, state, block, attempt), seen),
    ensures
        final(state).wf(),
        final(reader).reads(*final(state)),
        final(reader).id == old(reader).id,
        ({
            let left = to_come(old(state).history@, old(reader).id@);
            &&& (seen matches Some(RecvStep::Done(Ok(_)))) <==> left.len() > 0
            &&& seen matches Some(RecvStep::Done(Ok(val))) ==> cloned(left[0], val) && received_by(
                old(state).history@,
                final(state).history@,
                old(reader).id@,
            )
            &&& left.len() == 0 ==> same_for_all(old(state).history@, final(state).history@)
            &&& seen is None <==> left.len() == 0 && !old(state).closed && !(block is Try)
        }),
        final(reader).has_looked(
            *old(reader),
            *old(state),
            *final(state),
            block,
            *old(attempt),
            *final(attempt),
            seen,
        ),
{
    law_what_a_look_comes_to(
        *old(reader),
        *final(reader),
        *old(state),
        *final(state),
        block,
        *old(attempt),
        *final(attempt),
        seen,
    );
    if to_come(old(state).history@, old(reader).id@).len() > 0 {
        law_receiving_takes_away_the_first(*old(state), *final(state), *old(reader));
    }
}

/// What a try gives, whatever the reader does while there is nothing to read: the
/// first message to come if and only if there is one.
pub proof fn law_recv_inner<T: Clone>(
    reader: &mut BusReader<T>,
    state: &mut BusInner<T>,
    block: RecvCondition,
    elapsed: u128,
    attempt: &mut Attempt,
    step: RecvStep<Result<T, RecvTimeoutError>>,
)
    requires
        old(state).wf(),
        old(reader).reads(*old(state)),
        call_ensures(BusReader::<T>::recv_inner, (reader, state, block, elapsed, attempt), step),
    ensures
        final(state).wf(),
        final(reader).reads(*final(state)),
        final(reader).id == old(reader).id,
        ({
            let left = to_come(old(state).history@, old(reader).id@);
            &&& (step matches RecvStep::Done(Ok(_))) <==> left.len() > 0
            &&& step matches RecvStep::Done(Ok(val)) ==> cloned(left[0], val) && received_by(
                old(state).history@,
                final(state).history@,
                old(reader).id@,
            )
            &&& left.len() == 0 ==> same_for_all(old(state).history@, final(state).history@)
        }),
        final(reader).has_tried(
            *old(reader),
            *old(state),
            *final(state),
            block,
            elapsed,
            *old(attempt),
            *final(attempt),
            step,
        ),
{
    lemma_tried(
        *old(reader),
        *final(reader),
        *old(state),
        *final(state),
        block,
        elapsed,
        *old(attempt),
        *final(attempt),
        step,
    );
}

/// What a try gives to a reader that waits for as long as it takes: the first message
/// to come, if there is one, at once. If there is none, the reader goes on waiting
/// while the writer is there, and learns that the writer is gone when it sees so for
/// the second time.
pub proof fn law_recv<T: Clone>(
    reader: &mut BusReader<T>,
    state: &mut BusInner<T>,
    attempt: &mut Attempt,
    step: RecvStep<Result<T, RecvError>>,
)
    requires
        old(state).wf(),
        old(reader).reads(*old(state)),
        call_ensures(BusReader::<T>::recv, (reader, state, attempt), step),
    ensures
        final(state).wf(),
        final(reader).reads(*final(state)),
        final(reader).id == old(reader).id,
        ({
            let left = to_come(old(state).history@, old(reader).id@);
            let told = old(reader).closed || old(attempt).was_closed;
            let rested = old(attempt).backoff.spent() >= SPIN_LIMIT;
            &&& (step matches RecvStep::Done(Ok(_))) <==> left.len() > 0
            &&& step matches RecvStep::Done(Ok(val)) ==> cloned(left[0], val) && received_by(
                old(state).history@,
                final(state).history@,
                old(reader).id@,
            )
            &&& left.len() == 0 ==> same_for_all(old(state).history@, final(state).history@)
            &&& left.len() == 0 ==> step == if old(state).closed {
                if told {
                    RecvStep::Done(Err::<T, _>(RecvError))
                } else {
                    RecvStep::Again
                }
            } else if rested {
                RecvStep::Park(SPINTIME as u64)
            } else {
                RecvStep::Again
            }
            &&& left.len() == 0 && old(state).closed ==> final(attempt).was_closed || old(
                reader,
            ).closed
        }),
        final(reader).has_tried(
            *old(reader),
            *old(state),
            *final(state),
            RecvCondition::Block,
            0,
            *old(attempt),
            *final(attempt),
            match step {
                RecvStep::Done(Ok(val)) => RecvStep::Done(Ok(val)),
                RecvStep::Done(Err(_)) => RecvStep::Done(Err(RecvTimeoutError::Disconnected)),
                RecvStep::Again => RecvStep::Again,
                RecvStep::Park(time) => RecvStep::Park(time),
            },
        ),
{
    let told = crate::reader::unlimited(step);
    lemma_tried(
        *old(reader),
        *final(reader),
        *old(state),
        *final(state),
        RecvCondition::Block,
        0,
        *old(attempt),
        *final(attempt),
        told,
    );
    law_what_a_try_comes_to(
        *old(reader),
        *final(reader),
        *old(state),
        *final(state),
        RecvCondition::Block,
        0,
        *old(attempt),
        *final(attempt),
        told,
    );
    law_what_a_try_leaves_behind(
        *old(reader),
        *final(reader),
        *old(state),
        *final(state),
        RecvCondition::Block,
        0,
        *old(attempt),
        *final(attempt),
        told,
    );
    if let RecvStep::Done(Err(error)) = step {
        assert(error == RecvError);
    }
}

/// What a try gives to a reader that waits for a limited time: the first message to
/// come, if there is one, at once and however much time has elapsed. If there is none
/// and the writer is there, the reader gives up exactly once it has spun enough and
/// more than its time has elapsed.
pub proof fn law_recv_timeout<T: Clone>(
    reader: &mut BusReader<T>,
    state: &mut BusInner<T>,
    timeout: Duration,
    elapsed: u128,
    attempt: &mut Attempt,
    step: RecvStep<Result<T, RecvTimeoutError>>,
)
    requires
        old(state).wf(),
        old(reader).reads(*old(state)),
        call_ensures(
            BusReader::<T>::recv_timeout,
            (reader, state, timeout, elapsed, attempt),
            step,
        ),
    ensures
        final(state).wf(),
        final(reader).reads(*final(state)),
        final(reader).id == old(reader).id,
        ({
            let left = to_come(old(state).history@, old(reader).id@);
            let rested = old(attempt).backoff.spent() >= SPIN_LIMIT;
            &&& (step matches RecvStep::Done(Ok(_))) <==> left.len() > 0
            &&& step matches RecvStep::Done(Ok(val)) ==> cloned(left[0], val) && received_by(
                old(state).history@,
                final(state).history@,
                old(reader).id@,
            )
            &&& left.len() == 0 ==> same_for_all(old(state).history@, final(state).history@)
            &&& step == RecvStep::Done(Err::<T, _>(RecvTimeoutError::Timeout)) <==> left.len() == 0
                && !old(state).closed && rested && nanoseconds(timeout) < elapsed
            &&& step == RecvStep::Done(Err::<T, _>(RecvTimeoutError::Disconnected)) <==> left.len()
                == 0 && old(state).closed && (old(reader).closed || old(attempt).was_closed)
        }),
        final(reader).has_tried(
            *old(reader),
            *old(state),
            *final(state),
            RecvCondition::Timeout(timeout),
            elapsed,
            *old(attempt),
            *final(attempt),
            step,
        ),
{
    lemma_tried(
        *old(reader),
        *final(reader),
        *old(state),
        *final(state),
        RecvCondition::Timeout(timeout),
        elapsed,
        *old(attempt),
        *final(attempt),
        step,
    );
    law_what_a_try_comes_to(
        *old(reader),
        *final(reader),
        *old(state),
        *final(state),
        RecvCondition::Timeout(timeout),
        elapsed,
        *old(attempt),
        *final(attempt),
        step,
    );
}

/// An item that a reader's iterator gives is the first message that the reader has to
/// come, and there is one if and only if there is such a message. The items end only
/// where the writer is gone and nothing is to come.
pub proof fn law_next<T: Clone>(
    iter: &mut BusIter<'_, T>,
    state: &mut BusInner<T>,
    attempt: &mut Attempt,
    step: RecvStep<Option<T>>,
)
    requires
        old(state).wf(),
        (*old(iter).0).reads(*old(state)),
        call_ensures(BusIter::<'_, T>::next, (iter, state, attempt), step),
    ensures
        final(state).wf(),
        (*final(iter).0).reads(*final(state)),
        (*final(iter).0).id == (*old(iter).0).id,
        ({
            let id = (*old(iter).0).id@;
            let left = to_come(old(state).history@, id);
            &&& (step matches RecvStep::Done(Some(_))) <==> left.len() > 0
            &&& step matches RecvStep::Done(Some(val)) ==> cloned(left[0], val) && received_by(
                old(state).history@,
                final(state).history@,
                id,
            )
            &&& left.len() == 0 ==> same_for_all(old(state).history@, final(state).history@)
            &&& step == RecvStep::<Option<T>>::Done(None) <==> left.len() == 0 && old(state).closed
                && ((*old(iter).0).closed || old(attempt).was_closed)
            &&& left.len() == 0 && old(state).closed ==> final(attempt).was_closed
                || (*old(iter).0).closed
        }),
        (*final(iter).0).has_tried(
            *old(iter).0,
            *old(state),
            *final(state),
            RecvCondition::Block,
            0,
            *old(attempt),
            *final(attempt),
            match step {
                RecvStep::Done(Some(val)) => RecvStep::Done(Ok(val)),
                RecvStep::Done(None) => RecvStep::Done(Err(RecvTimeoutError::Disconnected)),
                RecvStep::Again => RecvStep::Again,
                RecvStep::Park(time) => RecvStep::Park(time),
            },
        ),
{
    let told = crate::reader::unlimited(crate::iter::item_received(step));
    lemma_tried(
        *old(iter).0,
        *final(iter).0,
        *old(state),
        *final(state),
        RecvCondition::Block,
        0,
        *old(attempt),
        *final(attempt),
        told,
    );
    law_what_a_try_leaves_behind(
        *old(iter).0,
        *final(iter).0,
        *old(state),
        *final(state),
        RecvCondition::Block,
        0,
        *old(attempt),
        *final(attempt),
        told,
    );
}

/// The same of an iterator that owns its reader.
pub proof fn law_next_of_an_owned_reader<T: Clone>(
    iter: &mut BusIntoIter<T>,
    state: &mut BusInner<T>,
    attempt: &mut Attempt,
    step: RecvStep<Option<T>>,
)
    requires
        old(state).wf(),
        old(iter).0.reads(*old(state)),
        call_ensures(BusIntoIter::<T>::next, (iter, state, attempt), step),
    ensures
        final(state).wf(),
        final(iter).0.reads(*final(state)),
        final(iter).0.id == old(iter).0.id,
        ({
            let id = old(iter).0.id@;
            let left = to_come(old(state).history@, id);
            &&& (step matches RecvStep::Done(Some(_))) <==> left.len() > 0
            &&& step matches RecvStep::Done(Some(val)) ==> cloned(left[0], val) && received_by(
                old(state).history@,
                final(state).history@,
                id,
            )
            &&& left.len() == 0 ==> same_for_all(old(state).history@, final(state).history@)
            &&& step == RecvStep::<Option<T>>::Done(None) <==> left.len() == 0 && old(state).closed
                && (old(iter).0.closed || old(attempt).was_closed)
            &&& left.len() == 0 && old(state).closed ==> final(attempt).was_closed || old(
                iter,
            ).0.closed
        }),
        final(iter).0.has_tried(
            old(iter).0,
            *old(state),
            *final(state),
            RecvCondition::Block,
            0,
            *old(attempt),
            *final(attempt),
            match step {
                RecvStep::Done(Some(val)) => RecvStep::Done(Ok(val)),
                RecvStep::Done(None) => RecvStep::Done(Err(RecvTimeoutError::Disconnected)),
                RecvStep::Again => RecvStep::Again,
                RecvStep::Park(time) => RecvStep::Park(time),
            },
        ),
{
    let told = crate::reader::unlimited(crate::iter::item_received(step));
    lemma_tried(
        old(iter).0,
        final(iter).0,
        *old(state),
        *final(state),
        RecvCondition::Block,
        0,
        *old(attempt),
        *final(attempt),
        told,
    );
    law_what_a_try_leaves_behind(
        old(iter).0,
        final(iter).0,
        *old(state),
        *final(state),
        RecvCondition::Block,
        0,
        *old(attempt),
        *final(attempt),
        told,
    );
}

/// A pause of a thread that waits for a limited time ends the wait exactly once the
/// thread has spun enough and more than its time has elapsed. Until then it spins, or
/// is parked for what is left of its time but never for longer than the usual time.
pub proof fn law_pause(
    attempt: &mut Attempt,
    block: RecvCondition,
    elapsed: u128,
    step: RecvStep<RecvTimeoutError>,
)
    requires
        call_ensures(Attempt::pause, (attempt, block, elapsed), step),
    ensures
        step is Again <==> old(attempt).backoff.spent() < SPIN_LIMIT,
        step is Done <==> old(attempt).backoff.spent() >= SPIN_LIMIT && (block matches
            RecvCondition::Timeout(timeout) && nanoseconds(timeout) < elapsed),
        step matches RecvStep::Done(error) ==> error == RecvTimeoutError::Timeout,
        step matches RecvStep::Park(time) ==> match block {
            RecvCondition::Timeout(timeout) => {
                &&& elapsed + time <= nanoseconds(timeout)
                &&& time <= SPINTIME
                &&& time == SPINTIME || elapsed + time == nanoseconds(timeout)
            },
            _ => time == SPINTIME,
        },
        final(attempt).backoff.spent() == old(attempt).backoff.spent() + if step is Again {
            1nat
        } else {
            0nat
        },
        final(attempt).was_closed == old(attempt).was_closed,
        final(attempt).first == old(attempt).first,
        final(attempt).ticket == old(attempt).ticket,
{
    if let RecvCondition::Timeout(timeout) = block {
        law_time_that_is_up_ends_the_wait(timeout, elapsed, old(attempt).backoff.spent());
    }
}

/// How long a thread that has spun enough is parked: a thread that waits for a limited
/// time is not parked any more exactly if more than its time has elapsed.
pub proof fn law_time_to_park(block: RecvCondition, elapsed: u128, time: Option<u64>)
    requires
        call_ensures(RecvCondition::time_to_park, (block, elapsed), time),
    ensures
        time is None <==> (block matches RecvCondition::Timeout(timeout) && nanoseconds(timeout)
            < elapsed),
        time is Some ==> match block {
            RecvCondition::Timeout(timeout) => {
                &&& elapsed + time->0 <= nanoseconds(timeout)
                &&& time->0 <= SPINTIME
                &&& time->0 == SPINTIME || elapsed + time->0 == nanoseconds(timeout)
            },
            _ => time->0 == SPINTIME,
        },
{
    if let RecvCondition::Timeout(timeout) = block {
        law_time_that_is_up_ends_the_wait(timeout, elapsed, 0);
    }
}

/// How long is left to be parked within a limit, in whole nanoseconds.
pub proof fn law_time_within_limit(limit: u128, elapsed: u128, time: Option<u64>)
    requires
        call_ensures(time_to_park, (limit, elapsed), time),
    ensures
        time is None <==> limit < elapsed,
        time is Some ==> {
            &&& elapsed + time->0 <= limit
            &&& time->0 <= SPINTIME
            &&& time->0 == SPINTIME || elapsed + time->0 == limit
        },
{
    law_parking_uses_what_is_left(limit as int, elapsed as int);
}

/// A thread may spin a limited number of times, and is to be parked for the usual time
/// from then on.
pub proof fn law_backoff(backoff: &mut Backoff, park: Option<u64>, fresh: Backoff)
    requires
        call_ensures(Backoff::pause, (backoff,), park),
        call_ensures(Backoff::new, (), fresh),
    ensures
        fresh.spent() == 0,
        park is None <==> old(backoff).spent() < SPIN_LIMIT,
        park is Some ==> park->0 == SPINTIME,
        final(backoff).spent() == old(backoff).spent() + if park is None {
            1nat
        } else {
            0nat
        },
{
}

/// Taking the message from a seat gives it to the reader, as a clone unless it is the
/// last reader, which takes the message itself away, and with it the ticket of the
/// writer that waits.
pub proof fn law_take<T: Clone>(seat: &mut Seat<T>, taken: (T, Option<usize>))
    requires
        old(seat).read < old(seat).state.0.max,
        old(seat).state.0.val is Some,
        call_ensures(Seat::<T>::take, (seat,), taken),
    ensures
        old(seat).readable(),
        final(seat).read == old(seat).read + 1,
        final(seat).state.0.max == old(seat).state.0.max,
        final(seat).read < old(seat).state.0.max ==> {
            &&& strictly_cloned(old(seat).state.0.val->0, taken.0)
            &&& taken.1 is None
            &&& final(seat).state.0.val == old(seat).state.0.val
            &&& final(seat).waiting@ == old(seat).waiting@
        },
        final(seat).read == old(seat).state.0.max ==> {
            &&& Some(taken.0) == old(seat).state.0.val
            &&& taken.1 == old(seat).waiting@
            &&& final(seat).state.0.val is None
            &&& final(seat).waiting@ is None
        },
{
    law_what_a_seat_gives(*old(seat), *final(seat), taken);
}

/// Fetching the message is taking it without being counted as done, for a reader that
/// has seen `read` others done.
pub proof fn law_fetch<T: Clone>(seat: &mut Seat<T>, read: usize, fetched: (T, Option<usize>))
    requires
        read < old(seat).state.0.max,
        old(seat).state.0.val is Some,
        call_ensures(Seat::<T>::fetch, (seat, read), fetched),
    ensures
        final(seat).read == old(seat).read,
        final(seat).state.0.max == old(seat).state.0.max,
        read + 1 < old(seat).state.0.max ==> {
            &&& strictly_cloned(old(seat).state.0.val->0, fetched.0)
            &&& fetched.1 is None
            &&& final(seat).state.0.val == old(seat).state.0.val
            &&& final(seat).waiting@ == old(seat).waiting@
        },
        read + 1 == old(seat).state.0.max ==> {
            &&& Some(fetched.0) == old(seat).state.0.val
            &&& fetched.1 == old(seat).waiting@
            &&& final(seat).state.0.val is None
            &&& final(seat).waiting@ is None
        },
{
    law_what_a_seat_lets_fetch(*old(seat), *final(seat), read, fetched);
}

/// Counting a reader as done adds one to the seat's count and changes nothing else.
pub proof fn law_count<T>(seat: &mut Seat<T>)
    requires
        old(seat).read < usize::MAX,
        call_ensures(Seat::<T>::count, (seat,), ()),
    ensures
        final(seat).read == old(seat).read + 1,
        final(seat).state == old(seat).state,
        final(seat).waiting == old(seat).waiting,
{
    law_what_counting_does(*old(seat), *final(seat));
}

/// A message that is placed in a seat is there for as many readers as it is placed
/// for, whatever the seat was like: nobody has read it, and no writer waits.
pub proof fn law_place<T>(seat: &mut Seat<T>, val: T, readers: usize)
    requires
        call_ensures(Seat::<T>::place, (seat, val, readers), ()),
    ensures
        final(seat).state.0.max == readers,
        final(seat).state.0.val == Some(val),
        final(seat).read == 0,
        final(seat).waiting@ is None,
{
    law_what_a_seat_holds(*final(seat), val, readers);
}

/// What is put in a place comes out of it when something else is put there, and what
/// is taken from it is what was there.
pub proof fn law_swap<T>(
    place: &mut AtomicOption<T>,
    val: Option<Box<T>>,
    previous: Option<Box<T>>,
)
    requires
        call_ensures(AtomicOption::<T>::swap, (place, val), previous),
    ensures
        final(place)@ == match val {
            Some(b) => Some(*b),
            None => None,
        },
        old(place)@ == match previous {
            Some(b) => Some(*b),
            None => None,
        },
{
}

/// Taking from a place hands back what was there and leaves nothing.
pub proof fn law_take_out<T>(place: &mut AtomicOption<T>, previous: Option<Box<T>>)
    requires
        call_ensures(AtomicOption::<T>::take, (place,), previous),
    ensures
        final(place)@ is None,
        old(place)@ == match previous {
            Some(b) => Some(*b),
            None => None,
        },
{
}

/// An iterator works on the reader that it was made of.
pub proof fn law_iterators_are_readers<T>(
    reader: &mut BusReader<T>,
    iter: BusIter<'_, T>,
    owned: BusReader<T>,
    into_iter: BusIntoIter<T>,
)
    requires
        call_ensures(BusReader::<T>::iter, (reader,), iter),
        call_ensures(BusReader::<T>::into_iter, (owned,), into_iter),
    ensures
        *old(iter.0) == *old(reader),
        *final(reader) == *final(iter.0),
        into_iter.0 == owned,
{
}

/// What there is before anything has happened: a seat that nobody has written, a place
/// that holds nothing, and an attempt that has not been made.
pub proof fn law_beginnings<T>(
    seat: Seat<T>,
    empty: SeatState<T>,
    place: AtomicOption<T>,
    ticket: usize,
    attempt: Attempt,
)
    requires
        call_ensures(SeatState::<T>::new, (), empty),
        call_ensures(Seat::<T>::default, (), seat),
        call_ensures(AtomicOption::<T>::empty, (), place),
        call_ensures(Attempt::new, (ticket,), attempt),
    ensures
        seat.state.0.max == 0,
        seat.state.0.val is None,
        seat.read == 0,
        seat.waiting@ is None,
        empty.max == 0,
        empty.val is None,
        place@ is None,
        !attempt.was_closed,
        attempt.first,
        attempt.backoff.spent() == 0,
        attempt.ticket == ticket,
{
}

/// The shared state of a new bus: as many free seats as asked for, nothing sent, and
/// nobody there.
pub proof fn law_new_shared_state<T>(len: usize, inner: BusInner<T>)
    requires
        1 <= len,
        call_ensures(BusInner::<T>::new, (len,), inner),
    ensures
        inner.wf(),
        inner.len == len,
        inner.ring@.len() == len,
        forall|slot: int|
            0 <= slot < len ==> {
                let seat = #[trigger] inner.ring@[slot];
                &&& seat.state.0.max == 0
                &&& seat.state.0.val is None
                &&& seat.read == 0
                &&& seat.waiting@ is None
            },
        inner.tail == 0,
        !inner.closed,
        inner.history@.log == Seq::<T>::empty(),
        inner.history@.cursors.len() == 0,
        numbers_queued(inner.leaving) == Seq::<usize>::empty(),
        pairs_queued(inner.waiting) == Seq::<(usize, usize)>::empty(),
        numbers_queued(inner.unpark) == Seq::<usize>::empty(),
{
    assert forall|slot: int| 0 <= slot < len implies {
        let seat = #[trigger] inner.ring@[slot];
        &&& seat.state.0.max == 0
        &&& seat.state.0.val is None
        &&& seat.read == 0
        &&& seat.waiting@ is None
    } by {
        assert(inner.ring[slot].max() == 0);
        assert(inner.parked()[slot] == inner.ring[slot].waiting@);
    }
    vstd::arithmetic::div_mod::lemma_small_mod(0, len as nat);
    assert(numbers_queued(inner.leaving) =~= Seq::empty());
}

} // verus!
