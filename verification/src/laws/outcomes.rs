//! What each operation is for, told by what every reader has to come.
//!
//! Every reader on a bus has messages to come. Placing a message adds it at the end
//! of what each of them has to come, receiving takes away the first, and nothing
//! else makes a difference.
use crate::bus::Bus;
use crate::history::History;
use crate::inner::BusInner;
use crate::queue::{numbers_queued, pairs_queued};
use crate::reader::{
    waiting_step, Attempt, BusReader, RecvCondition, RecvStep, RecvTimeoutError, TryRecvError,
};
use crate::seat::Seat;
use crate::timing::{nanoseconds, parking_time, SPINTIME, SPIN_LIMIT};
use core::time::Duration;
use vstd::pervasive::strictly_cloned;
use vstd::prelude::*;

verus! {

/// Whether reader `id` has joined and not left.
pub open spec fn on_bus<T>(h: History<T>, id: int) -> bool {
    0 <= id < h.cursors.len() && h.cursors[id] is Some && !h.leavers.contains(id)
}

/// The messages that reader `id` has to come, the next one first.
pub open spec fn to_come<T>(h: History<T>, id: int) -> Seq<T> {
    h.log.skip(h.cursors[id]->0 as int)
}

/// The readers that count are those that have joined and not left, and a reader has
/// to come what it has yet to read.
pub proof fn law_unread_is_what_is_to_come<T>(h: History<T>, id: int, capacity: int)
    requires
        h.wf(capacity),
        on_bus(h, id),
    ensures
        h.live_readers().contains(id),
        h.unread(id) == to_come(h, id).len(),
        to_come(h, id).len() <= capacity,
        to_come(h, id).len() > 0 ==> to_come(h, id)[0] == h.log[h.cursor(id)],
        forall|other: int| #[trigger] h.live_readers().contains(other) <==> on_bus(h, other),
{
    assert(h.counted(id));
}

/// A bus that can hold messages has room exactly if no reader has as many messages
/// to come as the bus can hold. A bus that can hold none has room unless its last
/// message was for somebody and there are still readers.
pub proof fn law_room_is_where_nobody_is_full<T>(state: BusInner<T>)
    requires
        state.wf(),
    ensures
        state.len > 1 ==> (state.has_room() <==> forall|id: int| #[trigger]
            on_bus(state.history@, id) ==> to_come(state.history@, id).len() < state.len - 1),
        state.len == 1 ==> (state.has_room() <==> state.ring[0].state.0.max == 0
            || forall|id: int| !#[trigger] on_bus(state.history@, id)),
{
    let h = state.history@;
    assert forall|id: int| #[trigger] on_bus(h, id) implies h.live(id) && h.unread(id)
        == to_come(h, id).len() by {
        law_unread_is_what_is_to_come(h, id, state.len - 1);
    }
    assert forall|id: int| #[trigger] h.live(id) implies on_bus(h, id) by {}
    h.lemma_finite(0);
    if state.len == 1 {
        if h.live_readers().len() == 0 {
            assert forall|id: int| !#[trigger] on_bus(h, id) by {
                assert(!h.live_readers().contains(id));
            }
        }
        if forall|id: int| !#[trigger] on_bus(h, id) {
            assert(h.live_readers() =~= Set::empty());
        }
    }
}

/// Placing a message adds it at the end of what every reader has to come, and
/// changes nothing else about who is on the bus. On a bus that can hold none, nobody
/// ever has anything to come.
pub proof fn law_placing_reaches_every_reader<T>(before: Bus<T>, now: Bus<T>, val: T)
    requires
        before.wf(),
        before.state.has_room(),
        now.wf(),
        now.has_placed(before, val),
    ensures
        now.state.history@.log == before.state.history@.log.push(val),
        now.state.history@.cursors.len() == before.state.history@.cursors.len(),
        forall|id: int| #[trigger]
            on_bus(now.state.history@, id) <==> on_bus(before.state.history@, id),
        forall|id: int| #[trigger]
            on_bus(before.state.history@, id) ==> to_come(now.state.history@, id)
                == if before.state.len > 1 {
                to_come(before.state.history@, id).push(val)
            } else {
                Seq::empty()
            },
{
    let h = before.state.history@;
    let next = now.state.history@;
    assert forall|id: int| #[trigger] on_bus(h, id) implies to_come(next, id) =~= if before.state.len
        > 1 {
        to_come(h, id).push(val)
    } else {
        Seq::empty()
    } by {
        law_unread_is_what_is_to_come(h, id, before.state.capacity());
    }
}

/// A message is placed in the seat at the tail, for as many readers as the bus then
/// counts, and the tail moves on. No other seat is touched.
pub proof fn law_placing_fills_the_seat_at_the_tail<T>(before: Bus<T>, now: Bus<T>, val: T)
    requires
        before.wf(),
        before.state.has_room(),
        now.wf(),
        now.has_placed(before, val),
    ensures
        now.state.len == before.state.len,
        now.state.closed == before.state.closed,
        now.state.tail == (before.state.tail + 1) % before.state.len as int,
        now.state.ring@.len() == before.state.ring@.len(),
        now.state.ring@[before.state.tail as int].state.0.max == now.readers,
        now.state.ring@[before.state.tail as int].state.0.val == Some(val),
        now.state.ring@[before.state.tail as int].read == 0,
        now.state.ring@[before.state.tail as int].waiting@ is None,
        forall|slot: int|
            0 <= slot < before.state.len && slot != before.state.tail
                ==> #[trigger] now.state.ring@[slot] == before.state.ring@[slot],
{
    let n = before.state.history@.log.len() as int;
    let len = before.state.len as int;
    vstd::arithmetic::div_mod::lemma_mod_bound(n, len);
    crate::position::lemma_next_slot(n, len);
}

/// Before a message is placed, the bus takes note of the readers that have left,
/// all of them, if one that it counts has as many messages to come as the bus can
/// hold, and of none otherwise.
pub proof fn law_departures_are_noted_when_in_the_way<T>(before: Bus<T>, now: Bus<T>, val: T)
    requires
        before.wf(),
        before.state.has_room(),
        now.wf(),
        now.has_placed(before, val),
    ensures
        ({
            let h = before.state.history@;
            let in_the_way = if before.state.len > 1 {
                exists|id: int|
                    0 <= id < h.cursors.len() && (#[trigger] h.cursors[id]) is Some
                        && h.log.len() - h.cursors[id]->0 >= before.state.len - 1
            } else {
                before.state.ring@[0].state.0.max > 0 && before.readers > 0
            };
            let left = numbers_queued(before.state.leaving);
            if in_the_way {
                &&& numbers_queued(now.state.leaving) == Seq::<usize>::empty()
                &&& now.readers == before.readers - left.len()
            } else {
                &&& numbers_queued(now.state.leaving) == left
                &&& now.readers == before.readers
            }
        }),
{
    let h = before.state.history@;
    let next = now.state.history@;
    let len = before.state.len as int;
    assert forall|id: int| #[trigger] h.counted(id) implies 0 <= id < h.cursors.len()
        && h.cursors[id] is Some by {}
    assert(before.state.roomy() <==> !if len > 1 {
        exists|id: int|
            0 <= id < h.cursors.len() && (#[trigger] h.cursors[id]) is Some && h.log.len()
                - h.cursors[id]->0 >= len - 1
    } else {
        before.state.ring@[0].state.0.max > 0 && before.readers > 0
    }) by {
        if len > 1 {
            if !before.state.roomy() {
                let id = choose|id: int| #[trigger]
                    h.counted(id) && !(h.unread(id) < before.state.capacity());
                assert(h.cursors[id] is Some);
            }
            assert forall|id: int|
                0 <= id < h.cursors.len() && (#[trigger] h.cursors[id]) is Some && h.log.len()
                    - h.cursors[id]->0 >= len - 1 implies !before.state.roomy() by {
                assert(h.counted(id));
            }
        }
    }
    if before.state.roomy() {
        assert(next.leavers == h.leavers);
        assert forall|i: int| 0 <= i < h.leavers.len() implies #[trigger] numbers_queued(
            now.state.leaving,
        )[i] == numbers_queued(before.state.leaving)[i] by {
            assert(now.state.departures()[i] == next.cursor(next.leavers[i]) % len);
            assert(before.state.departures()[i] == h.cursor(h.leavers[i]) % len);
            assert(h.counted(h.leavers[i]));
            if len == 1 {
                vstd::arithmetic::div_mod::lemma_mod_bound(next.cursor(next.leavers[i]), len);
                vstd::arithmetic::div_mod::lemma_mod_bound(h.cursor(h.leavers[i]), len);
            }
        }
        assert(numbers_queued(now.state.leaving) =~= numbers_queued(before.state.leaving));
    } else {
        assert(numbers_queued(now.state.leaving) =~= Seq::empty());
    }
}

/// When a message is placed, the threads that wait at the new tail go on waiting, and
/// all others are due, after those that were due before, in the order in which they
/// began to wait.
pub proof fn law_placing_wakes_all_but_those_at_the_tail<T>(before: Bus<T>, now: Bus<T>, val: T)
    requires
        now.has_placed(before, val),
    ensures
        pairs_queued(now.state.waiting) == pairs_queued(before.state.waiting).filter(
            |waiter: (usize, usize)| waiter.1 == now.state.tail,
        ),
        numbers_queued(now.state.unpark) == numbers_queued(before.state.unpark) + pairs_queued(
            before.state.waiting,
        ).filter(|waiter: (usize, usize)| waiter.1 != now.state.tail).map_values(
            |waiter: (usize, usize)| waiter.0,
        ),
{
    let tail = now.state.tail;
    assert(crate::bus::waits_at(tail) =~= (|waiter: (usize, usize)| waiter.1 == now.state.tail));
    assert(crate::bus::waits_elsewhere(tail) =~= (|waiter: (usize, usize)| waiter.1
        != now.state.tail));
    assert(crate::bus::ticket_of() =~= (|waiter: (usize, usize)| waiter.0));
}

/// A refused message leaves every reader with what it had to come. The bus has taken
/// note of all that have left, and with a ticket the writer waits for the seat after
/// the tail; nothing else is different.
pub proof fn law_refusing_touches_no_reader<T>(
    before: Bus<T>,
    now: Bus<T>,
    ticket: Option<usize>,
)
    requires
        before.wf(),
        now.wf(),
        now.has_refused(before, ticket),
    ensures
        now.state.history@.log == before.state.history@.log,
        forall|id: int| #[trigger]
            on_bus(now.state.history@, id) <==> on_bus(before.state.history@, id),
        forall|id: int| #[trigger]
            on_bus(before.state.history@, id) ==> to_come(now.state.history@, id) == to_come(
                before.state.history@,
                id,
            ),
        now.state.len == before.state.len,
        now.state.tail == before.state.tail,
        now.state.closed == before.state.closed,
        now.state.ring@.len() == before.state.ring@.len(),
        forall|slot: int|
            0 <= slot < before.state.len ==> {
                let seat = #[trigger] now.state.ring@[slot];
                &&& seat.state == before.state.ring@[slot].state
                &&& seat.read == before.state.ring@[slot].read
                &&& seat.waiting@ == if ticket is Some && slot == (before.state.tail + 1)
                    % before.state.len as int {
                    ticket
                } else {
                    before.state.ring@[slot].waiting@
                }
            },
        numbers_queued(now.state.leaving) == Seq::<usize>::empty(),
        now.readers == before.readers - numbers_queued(before.state.leaving).len(),
        pairs_queued(now.state.waiting) == pairs_queued(before.state.waiting),
        numbers_queued(now.state.unpark) == numbers_queued(before.state.unpark),
{
    let h = before.state.history@;
    let next = now.state.history@;
    let len = before.state.len as int;
    let fence = (before.state.tail + 1) % len;
    vstd::arithmetic::div_mod::lemma_mod_bound(before.state.tail + 1, len);
    assert forall|slot: int| 0 <= slot < len implies {
        let seat = #[trigger] now.state.ring@[slot];
        &&& seat.state == before.state.ring@[slot].state
        &&& seat.read == before.state.ring@[slot].read
        &&& seat.waiting@ == if ticket is Some && slot == fence {
            ticket
        } else {
            before.state.ring@[slot].waiting@
        }
    } by {
        assert(now.state.parked()[slot] == now.state.ring[slot].waiting@);
        assert(before.state.parked()[slot] == before.state.ring[slot].waiting@);
    }
    assert forall|id: int| #[trigger] on_bus(h, id) implies to_come(next, id) == to_come(
        h,
        id,
    ) by {}
    assert(numbers_queued(now.state.leaving) =~= Seq::empty());
}

/// Giving up the writer's side closes the bus, always. Nobody joins or leaves by it,
/// every reader has the same messages to come, and every thread that waited is due,
/// after those that were due before.
pub proof fn law_closing_closes<T>(before: Bus<T>, state: BusInner<T>)
    requires
        before.ends_as(state),
    ensures
        state.closed,
        state.history@.log == before.state.history@.log,
        state.history@.cursors == before.state.history@.cursors,
        state.history@.leavers == before.state.history@.leavers,
        state.ring == before.state.ring,
        state.len == before.state.len,
        state.tail == before.state.tail,
        state.leaving == before.state.leaving,
        pairs_queued(state.waiting) == Seq::<(usize, usize)>::empty(),
        numbers_queued(state.unpark) == numbers_queued(before.state.unpark) + pairs_queued(
            before.state.waiting,
        ).map_values(|waiter: (usize, usize)| waiter.0),
{
    assert(crate::bus::ticket_of() =~= (|waiter: (usize, usize)| waiter.0));
}

/// A reader that is on a bus before the writer gives up its side is on it after, and
/// if it has nothing to come it is then disconnected, whether others have left or
/// not.
pub proof fn law_closing_disconnects<T: Clone>(
    before: Bus<T>,
    was: BusInner<T>,
    reader: BusReader<T>,
    now: BusReader<T>,
    state: BusInner<T>,
    result: Result<T, TryRecvError>,
)
    requires
        before.wf(),
        reader.reads(before.state),
        before.ends_as(was),
        now.has_polled(reader, was, state, result),
    ensures
        reader.reads(was),
        to_come(before.state.history@, reader.id@).len() == 0 ==> result == Err::<T, _>(
            TryRecvError::Disconnected,
        ),
        to_come(before.state.history@, reader.id@).len() > 0 ==> (result matches Ok(val) && cloned(
            to_come(before.state.history@, reader.id@)[0],
            val,
        )),
{
    law_unread_is_what_is_to_come(
        before.state.history@,
        reader.id@,
        before.state.capacity(),
    );
}

/// Where a reader is: it is on the bus, at the seat of the next message that is sent
/// or of the first that it has to come, and it takes the bus for closed only if the
/// writer is gone and nothing is to come.
pub proof fn law_where_a_reader_is<T>(reader: BusReader<T>, state: BusInner<T>)
    requires
        state.wf(),
    ensures
        reader.reads(state) <==> {
            let h = state.history@;
            let id = reader.id@;
            &&& on_bus(h, id)
            &&& reader.head == h.cursors[id]->0 as int % state.len as int
            &&& reader.closed ==> state.closed && to_come(h, id).len() == 0
        },
        reader.reads(state) ==> {
            let left = to_come(state.history@, reader.id@);
            &&& reader.head < state.len
            &&& reader.head == state.tail <==> left.len() == 0
            &&& reader.pending(state) <==> left.len() > 0
            &&& left.len() > 0 ==> reader.next_message(state) == left[0]
        },
{
    if on_bus(state.history@, reader.id@) {
        law_unread_is_what_is_to_come(state.history@, reader.id@, state.capacity());
    }
    if reader.reads(state) {
        reader.lemma_pending(state);
    }
}

/// Receiving takes away the first message that the reader has to come, and no other
/// reader is touched. The seat counts one more reader; the last one takes the message
/// away, and makes the writer that waits for the seat due.
pub proof fn law_receiving_takes_away_the_first<T>(
    before: BusInner<T>,
    now: BusInner<T>,
    reader: BusReader<T>,
)
    requires
        before.wf(),
        now.wf(),
        reader.reads(before),
        to_come(before.history@, reader.id@).len() > 0,
        reader.has_received(before, now),
    ensures
        now.history@.log == before.history@.log,
        forall|id: int| #[trigger] on_bus(now.history@, id) <==> on_bus(before.history@, id),
        forall|id: int| #[trigger]
            on_bus(before.history@, id) ==> to_come(now.history@, id) == if id == reader.id@ {
                to_come(before.history@, id).skip(1)
            } else {
                to_come(before.history@, id)
            },
        now.len == before.len,
        now.tail == before.tail,
        now.closed == before.closed,
        now.ring@.len() == before.ring@.len(),
        forall|slot: int|
            0 <= slot < before.len && slot != reader.head ==> #[trigger] now.ring@[slot]
                == before.ring@[slot],
        pairs_queued(now.waiting) == pairs_queued(before.waiting),
        numbers_queued(now.leaving) == numbers_queued(before.leaving),
        ({
            let seat = before.ring@[reader.head as int];
            let after = now.ring@[reader.head as int];
            &&& seat.state.0.val == Some(to_come(before.history@, reader.id@)[0])
            &&& seat.read < seat.state.0.max
            &&& after.read == seat.read + 1
            &&& after.state.0.max == seat.state.0.max
            &&& if after.read == seat.state.0.max {
                &&& after.state.0.val is None
                &&& after.waiting@ is None
                &&& numbers_queued(now.unpark) == match seat.waiting@ {
                    Some(ticket) => numbers_queued(before.unpark).push(ticket),
                    None => numbers_queued(before.unpark),
                }
            } else {
                &&& after.state.0.val == seat.state.0.val
                &&& after.waiting@ == seat.waiting@
                &&& numbers_queued(now.unpark) == numbers_queued(before.unpark)
            }
        }),
{
    let h = before.history@;
    let next = now.history@;
    let head = reader.head as int;
    let len = before.len as int;
    law_where_a_reader_is(reader, before);
    reader.lemma_pending(before);
    law_unread_is_what_is_to_come(h, reader.id@, before.capacity());
    assert forall|id: int| #[trigger] on_bus(h, id) implies to_come(next, id) =~= if id
        == reader.id@ {
        to_come(h, id).skip(1)
    } else {
        to_come(h, id)
    } by {}
    assert(before.parked()[head] == before.ring[head].waiting@);
    assert(now.parked()[head] == now.ring[head].waiting@);
    assert forall|i: int| 0 <= i < h.leavers.len() implies #[trigger] numbers_queued(
        now.leaving,
    )[i] == numbers_queued(before.leaving)[i] by {
        assert(now.departures()[i] == next.cursor(next.leavers[i]) % len);
        assert(before.departures()[i] == h.cursor(h.leavers[i]) % len);
        assert(h.leavers.contains(h.leavers[i]));
    }
    assert(numbers_queued(now.leaving) =~= numbers_queued(before.leaving));
}

/// What a try to receive a message comes to, on an open bus and on a closed one, and
/// whatever the reader does while there is nothing to read. If the reader has
/// messages to come, it gets the first one, and it gets a message in no other case.
/// If it has none, it is disconnected or looks again where the writer is gone, and
/// gives up or waits where the writer is there.
pub proof fn law_what_a_try_comes_to<T: Clone>(
    before: BusReader<T>,
    now: BusReader<T>,
    was: BusInner<T>,
    state: BusInner<T>,
    block: RecvCondition,
    elapsed: u128,
    earlier: Attempt,
    attempt: Attempt,
    step: RecvStep<Result<T, RecvTimeoutError>>,
)
    requires
        was.wf(),
        before.reads(was),
        now.has_tried(before, was, state, block, elapsed, earlier, attempt, step),
    ensures
        ({
            let left = to_come(was.history@, before.id@);
            let seat = was.ring@[before.head as int];
            let rested = earlier.backoff.spent() >= SPIN_LIMIT;
            &&& (step matches RecvStep::Done(Ok(_))) <==> left.len() > 0
            &&& step matches RecvStep::Done(Ok(val)) ==> if seat.read + 1 == seat.state.0.max {
                val == left[0]
            } else {
                strictly_cloned(left[0], val)
            }
            &&& step == RecvStep::Done(Err::<T, _>(RecvTimeoutError::Disconnected)) <==> left.len()
                == 0 && was.closed && (before.closed || earlier.was_closed)
            &&& step == RecvStep::Done(Err::<T, _>(RecvTimeoutError::Timeout)) <==> left.len() == 0
                && !was.closed && match block {
                RecvCondition::Try => true,
                RecvCondition::Block => false,
                RecvCondition::Timeout(timeout) => rested && nanoseconds(timeout) < elapsed,
            }
            &&& step is Again <==> left.len() == 0 && if was.closed {
                !before.closed && !earlier.was_closed
            } else {
                !(block is Try) && !rested
            }
            &&& step matches RecvStep::Park(time) ==> match block {
                RecvCondition::Try => false,
                RecvCondition::Block => time == SPINTIME,
                RecvCondition::Timeout(timeout) => {
                    &&& elapsed + time <= nanoseconds(timeout)
                    &&& time <= SPINTIME
                    &&& time == SPINTIME || elapsed + time == nanoseconds(timeout)
                },
            }
        }),
{
    law_where_a_reader_is(before, was);
    law_unread_is_what_is_to_come(was.history@, before.id@, was.capacity());
}

/// What a try to receive a message leaves behind: where a message was received, as
/// after receiving; otherwise the bus is as it was, except that a thread that waits
/// has told it so once, and the reader is where it was. The reader takes the bus for
/// closed exactly if it has been told so.
pub proof fn law_what_a_try_leaves_behind<T: Clone>(
    before: BusReader<T>,
    now: BusReader<T>,
    was: BusInner<T>,
    state: BusInner<T>,
    block: RecvCondition,
    elapsed: u128,
    earlier: Attempt,
    attempt: Attempt,
    step: RecvStep<Result<T, RecvTimeoutError>>,
)
    requires
        was.wf(),
        before.reads(was),
        state.wf(),
        now.reads(state),
        now.id == before.id,
        now.has_tried(before, was, state, block, elapsed, earlier, attempt, step),
    ensures
        ({
            let left = to_come(was.history@, before.id@);
            let waits = left.len() == 0 && !was.closed && !(block is Try);
            &&& now.closed <==> step == RecvStep::Done(
                Err::<T, _>(RecvTimeoutError::Disconnected),
            )
            &&& now.head == if left.len() > 0 {
                (before.head + 1) % was.len as int
            } else {
                before.head as int
            }
            &&& left.len() > 0 ==> before.has_received(was, state)
            &&& left.len() == 0 ==> {
                &&& state.history@ == was.history@
                &&& state.ring == was.ring
                &&& state.len == was.len
                &&& state.tail == was.tail
                &&& state.closed == was.closed
                &&& state.leaving == was.leaving
                &&& state.unpark == was.unpark
                &&& pairs_queued(state.waiting) == if waits && earlier.first {
                    pairs_queued(was.waiting).push((earlier.ticket, before.head))
                } else {
                    pairs_queued(was.waiting)
                }
            }
            &&& attempt.ticket == earlier.ticket
            &&& attempt.first <==> earlier.first && !waits
            &&& attempt.was_closed <==> earlier.was_closed || (left.len() == 0 && was.closed
                && !before.closed)
            &&& attempt.backoff.spent() == earlier.backoff.spent() + if waits
                && earlier.backoff.spent() < SPIN_LIMIT {
                1nat
            } else {
                0nat
            }
        }),
{
    law_where_a_reader_is(before, was);
    law_unread_is_what_is_to_come(was.history@, before.id@, was.capacity());
    if before.pending(was) {
        let c = was@.cursor(before.id@);
        crate::position::lemma_next_slot(c, was.len as int);
    }
}

/// What looking for a message comes to, which is the part of a try that does not
/// wait: the same as a try where the reader need not wait, and nothing where it must.
pub proof fn law_what_a_look_comes_to<T: Clone>(
    before: BusReader<T>,
    now: BusReader<T>,
    was: BusInner<T>,
    state: BusInner<T>,
    block: RecvCondition,
    earlier: Attempt,
    attempt: Attempt,
    seen: Option<RecvStep<Result<T, RecvTimeoutError>>>,
)
    requires
        was.wf(),
        before.reads(was),
        state.wf(),
        now.reads(state),
        now.id == before.id,
        now.has_looked(before, was, state, block, earlier, attempt, seen),
    ensures
        ({
            let left = to_come(was.history@, before.id@);
            let seat = was.ring@[before.head as int];
            let waits = left.len() == 0 && !was.closed && !(block is Try);
            &&& seen is None <==> waits
            &&& (seen matches Some(RecvStep::Done(Ok(_)))) <==> left.len() > 0
            &&& seen matches Some(RecvStep::Done(Ok(val))) ==> if seat.read + 1
                == seat.state.0.max {
                val == left[0]
            } else {
                strictly_cloned(left[0], val)
            }
            &&& seen == Some(
                RecvStep::Done(Err::<T, _>(RecvTimeoutError::Disconnected)),
            ) <==> left.len() == 0 && was.closed && (before.closed || earlier.was_closed)
            &&& seen == Some(
                RecvStep::<Result<T, RecvTimeoutError>>::Again,
            ) <==> left.len() == 0 && was.closed && !before.closed && !earlier.was_closed
            &&& seen == Some(RecvStep::Done(Err::<T, _>(RecvTimeoutError::Timeout))) <==> left.len()
                == 0 && !was.closed && block is Try
            &&& now.closed <==> seen == Some(
                RecvStep::Done(Err::<T, _>(RecvTimeoutError::Disconnected)),
            )
            &&& now.head == if left.len() > 0 {
                (before.head + 1) % was.len as int
            } else {
                before.head as int
            }
            &&& left.len() > 0 ==> before.has_received(was, state)
            &&& left.len() == 0 ==> {
                &&& state.history@ == was.history@
                &&& state.ring == was.ring
                &&& state.len == was.len
                &&& state.tail == was.tail
                &&& state.closed == was.closed
                &&& state.leaving == was.leaving
                &&& state.unpark == was.unpark
                &&& pairs_queued(state.waiting) == if waits && earlier.first {
                    pairs_queued(was.waiting).push((earlier.ticket, before.head))
                } else {
                    pairs_queued(was.waiting)
                }
            }
            &&& attempt.ticket == earlier.ticket
            &&& attempt.first <==> earlier.first && !waits
            &&& attempt.was_closed <==> earlier.was_closed || (left.len() == 0 && was.closed
                && !before.closed)
            &&& attempt.backoff.spent() == earlier.backoff.spent()
        }),
{
    law_where_a_reader_is(before, was);
    law_unread_is_what_is_to_come(was.history@, before.id@, was.capacity());
    if before.pending(was) {
        crate::position::lemma_next_slot(was@.cursor(before.id@), was.len as int);
    }
}

/// What receiving without waiting comes to: the first message that is to come, if
/// there is one. If there is none, the reader is disconnected exactly if the writer
/// is gone, and finds the bus empty exactly if the writer is there; the bus is then
/// as it was.
pub proof fn law_what_a_poll_comes_to<T: Clone>(
    before: BusReader<T>,
    now: BusReader<T>,
    was: BusInner<T>,
    state: BusInner<T>,
    result: Result<T, TryRecvError>,
)
    requires
        was.wf(),
        before.reads(was),
        state.wf(),
        now.reads(state),
        now.id == before.id,
        now.has_polled(before, was, state, result),
    ensures
        ({
            let left = to_come(was.history@, before.id@);
            let seat = was.ring@[before.head as int];
            &&& result is Ok <==> left.len() > 0
            &&& result matches Ok(val) ==> if seat.read + 1 == seat.state.0.max {
                val == left[0]
            } else {
                strictly_cloned(left[0], val)
            }
            &&& result == Err::<T, _>(TryRecvError::Disconnected) <==> left.len() == 0
                && was.closed
            &&& result == Err::<T, _>(TryRecvError::Empty) <==> left.len() == 0 && !was.closed
            &&& now.closed <==> result == Err::<T, _>(TryRecvError::Disconnected)
            &&& now.head == if left.len() > 0 {
                (before.head + 1) % was.len as int
            } else {
                before.head as int
            }
            &&& left.len() > 0 ==> before.has_received(was, state)
            &&& left.len() == 0 ==> state == was
        }),
{
    law_where_a_reader_is(before, was);
    law_unread_is_what_is_to_come(was.history@, before.id@, was.capacity());
    if before.pending(was) {
        crate::position::lemma_next_slot(was@.cursor(before.id@), was.len as int);
    }
}

/// A thread that waits for a limited time gives up exactly once it has spun enough
/// and more than its time has elapsed. Until then it spins, or it is parked for what
/// is left of its time, but never for longer than the usual time.
pub proof fn law_time_that_is_up_ends_the_wait(timeout: Duration, elapsed: u128, spent: nat)
    ensures
        waiting_step(RecvCondition::Timeout(timeout), elapsed, spent) is Again <==> spent
            < SPIN_LIMIT,
        waiting_step(RecvCondition::Timeout(timeout), elapsed, spent) == RecvStep::Done(
            RecvTimeoutError::Timeout,
        ) <==> spent >= SPIN_LIMIT && nanoseconds(timeout) < elapsed,
        RecvCondition::Timeout(timeout).patience(elapsed) is None <==> nanoseconds(timeout)
            < elapsed,
        forall|time: int| #[trigger]
            parking_time(nanoseconds(timeout) as int, elapsed as int) == Some(time) ==> {
                &&& 0 <= time <= SPINTIME
                &&& elapsed + time <= nanoseconds(timeout)
                &&& time == SPINTIME || elapsed + time == nanoseconds(timeout)
            },
        RecvCondition::Timeout(timeout).patience(elapsed) matches Some(time) ==> {
            &&& waiting_step(RecvCondition::Timeout(timeout), elapsed, SPIN_LIMIT as nat)
                == RecvStep::<RecvTimeoutError>::Park(time as u64)
            &&& 0 <= time <= SPINTIME
            &&& elapsed + time <= nanoseconds(timeout)
            &&& time == SPINTIME || elapsed + time == nanoseconds(timeout)
        },
{
}

/// A thread that waits for as long as it takes spins and is then parked for the usual
/// time over and over, however much time has elapsed.
pub proof fn law_unlimited_waits_go_on(elapsed: u128, spent: nat)
    ensures
        waiting_step(RecvCondition::Block, elapsed, spent) == if spent < SPIN_LIMIT {
            RecvStep::<RecvTimeoutError>::Again
        } else {
            RecvStep::Park(SPINTIME as u64)
        },
        RecvCondition::Block.patience(elapsed) == Some(SPINTIME as int),
{
}

/// How long a thread is parked: no longer than what is left of its time, no longer
/// than the usual time, and as long as the two allow; not at all once its time is up.
pub proof fn law_parking_uses_what_is_left(limit: int, elapsed: int)
    ensures
        parking_time(limit, elapsed) is None <==> limit < elapsed,
        parking_time(limit, elapsed) matches Some(time) ==> {
            &&& time <= limit - elapsed
            &&& time <= SPINTIME
            &&& time == limit - elapsed || time == SPINTIME
        },
{
}

/// What a reader gets of a seat: the message, as a clone unless it is the last of the
/// readers that the message was written for. The last one takes the message itself
/// away, and with it the ticket of the writer that waits.
pub proof fn law_what_a_seat_gives<T: Clone>(
    before: Seat<T>,
    now: Seat<T>,
    taken: (T, Option<usize>),
)
    requires
        before.readable(),
        now.has_given(before, taken),
    ensures
        before.read < before.state.0.max,
        before.state.0.val is Some,
        now.read == before.read + 1,
        now.state.0.max == before.state.0.max,
        now.read < before.state.0.max ==> {
            &&& strictly_cloned(before.state.0.val->0, taken.0)
            &&& taken.1 is None
            &&& now.state.0.val == before.state.0.val
            &&& now.waiting@ == before.waiting@
        },
        now.read == before.state.0.max ==> {
            &&& Some(taken.0) == before.state.0.val
            &&& taken.1 == before.waiting@
            &&& now.state.0.val is None
            &&& now.waiting@ is None
        },
{
}

/// What a reader that has seen `read` others done fetches from a seat, which is the
/// part of taking the message that comes before it is counted as done.
pub proof fn law_what_a_seat_lets_fetch<T: Clone>(
    before: Seat<T>,
    now: Seat<T>,
    read: usize,
    fetched: (T, Option<usize>),
)
    requires
        read < before.state.0.max,
        before.state.0.val is Some,
        now.has_let_fetch(before, read, fetched),
    ensures
        now.read == before.read,
        now.state.0.max == before.state.0.max,
        read + 1 < before.state.0.max ==> {
            &&& strictly_cloned(before.state.0.val->0, fetched.0)
            &&& fetched.1 is None
            &&& now.state.0.val == before.state.0.val
            &&& now.waiting@ == before.waiting@
        },
        read + 1 == before.state.0.max ==> {
            &&& Some(fetched.0) == before.state.0.val
            &&& fetched.1 == before.waiting@
            &&& now.state.0.val is None
            &&& now.waiting@ is None
        },
{
}

/// A seat that has just been written holds the message for as many readers as it was
/// written for; nobody has read it, and no writer waits for the seat.
pub proof fn law_what_a_seat_holds<T>(seat: Seat<T>, val: T, readers: usize)
    requires
        seat.holds(val, readers),
    ensures
        seat.state.0.max == readers,
        seat.state.0.val == Some(val),
        seat.read == 0,
        seat.waiting@ is None,
{
}

/// Counting a reader as done adds one to the count and changes nothing else.
pub proof fn law_what_counting_does<T>(before: Seat<T>, now: Seat<T>)
    requires
        now.has_counted(before),
    ensures
        now.read == before.read + 1,
        now.state == before.state,
        now.waiting == before.waiting,
{
}

/// Every message that a reader has to come is in its seat, the one that its number
/// belongs to, whether the reader is still on the bus or the bus has yet to note that
/// it left.
pub proof fn law_messages_to_come_are_in_their_seats<T>(state: BusInner<T>, id: int, m: int)
    requires
        state.wf(),
        0 <= id < state.history@.cursors.len(),
        state.history@.cursors[id] is Some,
        state.history@.cursors[id]->0 <= m < state.history@.log.len(),
    ensures
        ({
            let seat = state.ring@[m % state.len as int];
            &&& 0 <= m % state.len as int
            &&& m % (state.len as int) < state.ring@.len()
            &&& m % state.len as int != state.tail
            &&& seat.state.0.val == Some(state.history@.log[m])
            &&& seat.read < seat.state.0.max
        }),
{
    let h = state.history@;
    let n = h.log.len() as int;
    let len = state.len as int;
    assert(h.counted(id));
    crate::position::lemma_message_slot(n, len, m);
    if m % len == n % len {
        crate::position::lemma_same_slot(m, n, len);
    }
    assert(state.seat_wf(m % len));
    h.lemma_finite(m);
    assert(h.expecting(m).contains(id));
}

/// What a bus counts: the readers that have joined, less those whose leaving it has
/// noted; and those whose leaving it has yet to note are told by where they were.
pub proof fn law_what_a_bus_counts<T>(bus: Bus<T>)
    requires
        bus.wf(),
    ensures
        bus.readers == Set::new(
            |id: int|
                0 <= id < bus.state.history@.cursors.len()
                    && bus.state.history@.cursors[id] is Some,
        ).len(),
        bus.state.tail == bus.state.history@.log.len() as int % bus.state.len as int,
        bus.state.ring@.len() == bus.state.len,
        bus.rleft@.len() == bus.state.len,
        bus.cache@.len() == 0,
        !bus.state.closed,
        numbers_queued(bus.state.leaving).len() == bus.state.history@.leavers.len(),
        forall|i: int|
            0 <= i < bus.state.history@.leavers.len() ==> #[trigger] numbers_queued(
                bus.state.leaving,
            )[i] == bus.state.history@.cursors[bus.state.history@.leavers[i]]->0 as int
                % bus.state.len as int,
{
    let h = bus.state.history@;
    assert(h.audience() =~= Set::new(
        |id: int| 0 <= id < h.cursors.len() && h.cursors[id] is Some,
    ));
    assert forall|i: int| 0 <= i < h.leavers.len() implies #[trigger] numbers_queued(
        bus.state.leaving,
    )[i] == h.cursors[h.leavers[i]]->0 as int % bus.state.len as int by {
        assert(bus.state.departures()[i] == h.cursor(h.leavers[i]) % bus.state.len as int);
    }
}

} // verus!
