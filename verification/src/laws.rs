//! What holds of a bus as a whole.
use crate::bus::{staying, waits_elsewhere, woken, Bus};
use crate::history::{after, lemma_event_wf, possible, Event, History};
use crate::inner::BusInner;
use crate::reader::{
    waiting_step, Attempt, BusReader, RecvCondition, RecvStep, RecvTimeoutError, TryRecvError,
};
use crate::seat::{handed_over, Seat};
use crate::timing::{nanoseconds, SPINTIME};
use core::time::Duration;
use vstd::prelude::*;

pub mod calls;
pub mod conversation;
pub mod outcomes;

verus! {

/// Whether the events can happen one after the other.
pub open spec fn all_possible<T>(h: History<T>, events: Seq<Event<T>>, capacity: int) -> bool
    decreases events.len(),
{
    events.len() == 0 || {
        &&& all_possible(h, events.drop_last(), capacity)
        &&& possible(run(h, events.drop_last(), capacity), events.last(), capacity)
    }
}

/// What the history is after the events.
pub open spec fn run<T>(h: History<T>, events: Seq<Event<T>>, capacity: int) -> History<T>
    decreases events.len(),
{
    if events.len() == 0 {
        h
    } else {
        after(run(h, events.drop_last(), capacity), events.last(), capacity)
    }
}

/// The messages that reader `id` receives in the course of the events.
pub open spec fn delivered<T>(
    h: History<T>,
    events: Seq<Event<T>>,
    capacity: int,
    id: int,
) -> Seq<T>
    decreases events.len(),
{
    if events.len() == 0 {
        Seq::empty()
    } else {
        let so_far = delivered(h, events.drop_last(), capacity, id);
        let now = run(h, events.drop_last(), capacity);
        if events.last() == Event::<T>::Receive(id) {
            so_far.push(now.log[now.cursor(id)])
        } else {
            so_far
        }
    }
}

/// A history stays well-formed whatever happens.
pub proof fn law_histories_stay_well_formed<T>(
    h: History<T>,
    events: Seq<Event<T>>,
    capacity: int,
)
    requires
        0 <= capacity,
        h.wf(capacity),
        all_possible(h, events, capacity),
    ensures
        run(h, events, capacity).wf(capacity),
    decreases events.len(),
{
    if events.len() > 0 {
        law_histories_stay_well_formed(h, events.drop_last(), capacity);
        lemma_event_wf(run(h, events.drop_last(), capacity), events.last(), capacity);
    }
}

/// Every reader receives every message that is sent while it is on the bus,
/// once each and in the order in which they were sent: what it receives is a
/// stretch of what was sent, from where it was on, and reaches as far as its
/// cursor.
pub proof fn law_delivery<T>(h: History<T>, events: Seq<Event<T>>, capacity: int, id: int)
    requires
        0 < capacity,
        h.wf(capacity),
        h.live(id),
        all_possible(h, events, capacity),
    ensures
        ({
            let end = run(h, events, capacity);
            let got = delivered(h, events, capacity, id);
            &&& h.cursor(id) + got.len() <= end.log.len()
            &&& got == end.log.subrange(h.cursor(id), h.cursor(id) + got.len())
            &&& h.log.is_prefix_of(end.log)
            &&& id < end.cursors.len()
            &&& end.counted(id) ==> end.cursor(id) == h.cursor(id) + got.len()
        }),
    decreases events.len(),
{
    if events.len() == 0 {
        assert(h.counted(id));
        assert(h.log.subrange(h.cursor(id), h.cursor(id)) =~= Seq::empty());
    } else {
        let before = events.drop_last();
        law_delivery(h, before, capacity, id);
        let mid = run(h, before, capacity);
        let end = run(h, events, capacity);
        let got = delivered(h, events, capacity, id);
        assert(got =~= end.log.subrange(h.cursor(id), h.cursor(id) + got.len()));
        assert(mid.log.is_prefix_of(end.log));
        assert(end.counted(id) ==> mid.counted(id));
    }
}

/// Placing a message on a bus with room is something that can happen to it,
/// after it has taken note of the readers that have left where it must.
pub proof fn law_placing_is_a_broadcast<T>(before: Bus<T>, now: Bus<T>, val: T)
    requires
        before.wf(),
        before.state.has_room(),
        now.has_placed(before, val),
    ensures
        ({
            let events = if before.state.roomy() {
                seq![Event::Broadcast(val)]
            } else {
                seq![Event::Note, Event::Broadcast(val)]
            };
            &&& all_possible(before.state@, events, before.state.capacity())
            &&& now.state@ == run(before.state@, events, before.state.capacity())
        }),
{
    let h = before.state@;
    let capacity = before.state.capacity();
    reveal_with_fuel(run, 3);
    reveal_with_fuel(all_possible, 3);
    if before.state.roomy() {
        let events = seq![Event::Broadcast(val)];
        assert(events.drop_last() =~= Seq::empty());
        assert(possible(h, events.last(), capacity));
    } else {
        let events = seq![Event::Note, Event::Broadcast(val)];
        assert(events.drop_last() =~= seq![Event::Note]);
        assert(events.drop_last().drop_last() =~= Seq::empty());
        if capacity > 0 {
            assert forall|id: int| #[trigger] h.settled().counted(id) implies h.settled().unread(
                id,
            ) < capacity by {
                assert(h.live(id));
                assert(h.settled().cursor(id) == h.cursor(id));
            }
        }
        assert(possible(h.settled(), events.last(), capacity));
    }
}

/// Receiving a message is something that can happen to a bus.
pub proof fn law_receiving_is_a_receive<T>(
    before: BusInner<T>,
    now: BusInner<T>,
    reader: BusReader<T>,
)
    requires
        reader.reads(before),
        reader.pending(before),
        reader.has_received(before, now),
    ensures
        possible(before@, Event::Receive(reader.id@), before.capacity()),
        now@ == after(before@, Event::Receive(reader.id@), before.capacity()),
{
}

/// The writer never overwrites a message that a reader has yet to read: what a
/// reader receives next is the same before and after another message is placed.
pub proof fn law_unread_messages_are_kept<T>(
    before: Bus<T>,
    now: Bus<T>,
    val: T,
    reader: BusReader<T>,
)
    requires
        before.wf(),
        now.wf(),
        now.has_placed(before, val),
        reader.reads(before.state),
        reader.pending(before.state),
    ensures
        reader.reads(now.state),
        reader.pending(now.state),
        reader.next_message(now.state) == reader.next_message(before.state),
        now.state.ring[reader.head as int].val() == Some(reader.next_message(before.state)),
{
    assert(before.state@.counted(reader.id@));
    reader.lemma_pending(before.state);
    reader.lemma_pending(now.state);
}

/// No reader ever has more messages to read than the bus can hold.
pub proof fn law_unread_is_bounded<T>(state: BusInner<T>, id: int)
    requires
        state.wf(),
        state@.live(id),
    ensures
        0 <= state@.unread(id) <= state.capacity(),
{
    assert(state@.counted(id));
}

/// A bus that can hold messages is full exactly if some reader has as many
/// messages to read as the bus can hold.
pub proof fn law_full<T>(state: BusInner<T>)
    requires
        state.wf(),
        state.capacity() > 0,
    ensures
        !state.has_room() <==> exists|id: int| #[trigger]
            state@.live(id) && state@.unread(id) == state.capacity(),
{
    if !state.has_room() {
        let id = choose|id: int| #[trigger]
            state@.live(id) && !(state@.unread(id) < state.capacity());
        law_unread_is_bounded(state, id);
        assert(state@.live(id) && state@.unread(id) == state.capacity());
    }
}

/// Broadcasts succeed even if there are no consumers.
pub proof fn law_no_consumers<T>(state: BusInner<T>)
    requires
        state.wf(),
        state@.live_readers() == Set::<int>::empty(),
    ensures
        state.has_room(),
{
    assert forall|id: int| #[trigger] state@.live(id) implies state@.unread(id)
        < state.capacity() by {
        assert(state@.live_readers().contains(id));
    }
}

/// Every message that is placed on a bus is one more for each reader to read.
pub proof fn law_placing_adds_one_unread<T>(before: Bus<T>, now: Bus<T>, val: T, id: int)
    requires
        before.wf(),
        before.state.capacity() > 0,
        now.has_placed(before, val),
        before.state@.live(id),
    ensures
        now.state@.live(id),
        now.state@.unread(id) == before.state@.unread(id) + 1,
{
}

/// A reader that has read all there was receives the message that is placed on
/// the bus next.
pub proof fn law_read_gives_back_what_was_written<T>(
    before: Bus<T>,
    now: Bus<T>,
    val: T,
    reader: BusReader<T>,
)
    requires
        before.wf(),
        before.state.capacity() > 0,
        now.has_placed(before, val),
        reader.reads(before.state),
        !reader.pending(before.state),
    ensures
        reader.reads(now.state),
        reader.pending(now.state),
        reader.next_message(now.state) == val,
{
    assert(before.state@.counted(reader.id@));
}

/// A new reader has nothing to read, and the first message that it receives is
/// the next one that is placed on the bus.
pub proof fn law_new_reader_starts_with_next_message<T>(h: History<T>, val: T, capacity: int)
    requires
        0 < capacity,
        h.wf(capacity),
    ensures
        ({
            let id = h.cursors.len() as int;
            let next = h.joined().published(val, capacity);
            &&& h.joined().live(id)
            &&& h.joined().unread(id) == 0
            &&& next.live(id)
            &&& next.unread(id) == 1
            &&& next.log[next.cursor(id)] == val
        }),
{
    let id = h.cursors.len() as int;
    if h.leavers.contains(id) {
        let i = choose|i: int| 0 <= i < h.leavers.len() && h.leavers[i] == id;
        assert(h.counted(h.leavers[i]));
    }
}

/// A refused message leaves the bus as it was: the same messages, the same live
/// readers, and each has the same messages to read.
pub proof fn law_refusal_changes_nothing<T>(
    before: Bus<T>,
    now: Bus<T>,
    ticket: Option<usize>,
    id: int,
)
    requires
        before.wf(),
        now.has_refused(before, ticket),
    ensures
        now.state@.log == before.state@.log,
        now.state@.live(id) <==> before.state@.live(id),
        before.state@.live(id) ==> now.state@.cursor(id) == before.state@.cursor(id),
        now.state.has_room() <==> before.state.has_room(),
{
    let h = before.state@;
    let next = now.state@;
    assert forall|i: int| #[trigger] next.live(i) <==> h.live(i) by {}
    assert(next.live_readers() =~= h.live_readers());
    assert forall|i: int| #[trigger] h.live(i) implies next.cursor(i) == h.cursor(i) by {}
    if before.state.capacity() != 0 {
        assert forall|i: int| #[trigger] h.live(i) implies next.unread(i) == h.unread(i) by {}
        if now.state.has_room() {
            assert forall|i: int| #[trigger] h.live(i) implies h.unread(i)
                < before.state.capacity() by {
                assert(next.live(i));
            }
        }
        if before.state.has_room() {
            assert forall|i: int| #[trigger] next.live(i) implies next.unread(i)
                < before.state.capacity() by {
                assert(h.live(i));
            }
        }
    }
}

/// Once the only reader that stands in the way has received a message, there is
/// room for another.
pub proof fn law_receiving_makes_room<T>(
    before: BusInner<T>,
    now: BusInner<T>,
    reader: BusReader<T>,
)
    requires
        before.wf(),
        reader.reads(before),
        reader.pending(before),
        reader.has_received(before, now),
        forall|id: int| #[trigger]
            before@.live(id) && id != reader.id@ ==> before@.unread(id) < before.capacity(),
    ensures
        now.has_room(),
{
    law_unread_is_bounded(before, reader.id@);
    assert forall|id: int| #[trigger] now@.live(id) implies now@.unread(id) < now.capacity() by {
        assert(before@.live(id));
    }
}

/// Once the only reader that stands in the way has left, there is room for
/// another message.
pub proof fn law_leaving_makes_room<T>(before: BusInner<T>, now: BusInner<T>, id: int)
    requires
        before.wf(),
        before@.live(id),
        now@ == before@.departed(id),
        now.len == before.len,
        forall|other: int| #[trigger]
            before@.live(other) && other != id ==> before@.unread(other) < before.capacity(),
    ensures
        now.has_room(),
{
    assert forall|other: int| #[trigger] now@.live(other) implies now@.unread(other)
        < now.capacity() by {
        let leavers = now@.leavers;
        assert(leavers[leavers.len() - 1] == id);
        assert(other != id);
        if before@.leavers.contains(other) {
            let i = choose|i: int| 0 <= i < before@.leavers.len() && before@.leavers[i] == other;
            assert(leavers[i] == other);
        }
        assert(before@.live(other));
        if before.capacity() == 0 {
            law_unread_is_bounded(before, other);
        }
    }
    if before.capacity() == 0 {
        assert forall|other: int| !now@.live(other) by {
            if now@.live(other) {
                assert(before@.counted(other));
            }
        }
        assert(now@.live_readers() =~= Set::empty());
    }
}

/// What one reader does does not touch any other reader, nor does a message that
/// is placed on a bus that can hold messages: the other stays where it is, and
/// what it has yet to read stays the same.
pub proof fn law_readers_are_independent<T>(
    h: History<T>,
    id: int,
    other: int,
    val: T,
    capacity: int,
)
    requires
        h.live(other),
        id != other,
    ensures
        h.live(id) ==> {
            &&& h.received(id).live(other)
            &&& h.received(id).cursor(other) == h.cursor(other)
            &&& h.received(id).log == h.log
            &&& h.departed(id).live(other)
            &&& h.departed(id).cursor(other) == h.cursor(other)
            &&& h.departed(id).log == h.log
        },
        h.published(val, capacity).live(other),
        capacity > 0 ==> h.published(val, capacity).cursor(other) == h.cursor(other),
        h.log.is_prefix_of(h.published(val, capacity).log),
{
}

/// The number of live readers: a reader that joins is one more and one that
/// leaves is one less, and nothing else counts.
pub proof fn law_reader_count<T>(h: History<T>, val: T, capacity: int, id: int)
    requires
        0 <= capacity,
        h.wf(capacity),
    ensures
        History::<T>::start().live_readers().len() == 0,
        h.joined().live_readers().len() == h.live_readers().len() + 1,
        h.live(id) ==> h.departed(id).live_readers().len() == h.live_readers().len() - 1,
        h.published(val, capacity).live_readers() == h.live_readers(),
        h.live(id) ==> h.received(id).live_readers() == h.live_readers(),
        h.settled().live_readers() == h.live_readers(),
{
    h.lemma_finite(0);
    let new = h.cursors.len() as int;
    if h.leavers.contains(new) {
        let i = choose|i: int| 0 <= i < h.leavers.len() && h.leavers[i] == new;
        assert(h.counted(h.leavers[i]));
    }
    assert(History::<T>::start().live_readers() =~= Set::empty());
    assert(h.joined().live_readers() =~= h.live_readers().insert(new));
    let left = h.departed(id).leavers;
    assert forall|i: int| left.contains(i) <==> h.leavers.contains(i) || i == id by {
        assert(left[left.len() - 1] == id);
        if h.leavers.contains(i) {
            let k = choose|k: int| 0 <= k < h.leavers.len() && h.leavers[k] == i;
            assert(left[k] == i);
        }
    }
    assert(h.departed(id).live_readers() =~= h.live_readers().remove(id));
    if h.live(id) {
        assert(h.live_readers().contains(id));
        assert(h.received(id).live_readers() =~= h.live_readers());
    }
    assert(h.published(val, capacity).live_readers() =~= h.live_readers());
    assert(h.settled().live_readers() =~= h.live_readers());
}

/// A reader that has found the bus closed stays disconnected.
pub proof fn law_disconnected_is_final<T: Clone>(
    before: BusReader<T>,
    now: BusReader<T>,
    was: BusInner<T>,
    state: BusInner<T>,
    block: RecvCondition,
    elapsed: u128,
    earlier: Attempt,
    attempt: Attempt,
    step: RecvStep<Result<T, RecvTimeoutError>>,
)
    requires
        before.closed,
        now.has_tried(before, was, state, block, elapsed, earlier, attempt, step),
    ensures
        now.closed,
        step == RecvStep::Done(Err::<T, _>(RecvTimeoutError::Disconnected)),
        state == was,
{
}

/// A closed bus still gives out what is on it: a reader is not disconnected as
/// long as there is something to read.
pub proof fn law_messages_outlive_the_writer<T: Clone>(
    before: BusReader<T>,
    now: BusReader<T>,
    was: BusInner<T>,
    state: BusInner<T>,
    block: RecvCondition,
    elapsed: u128,
    earlier: Attempt,
    attempt: Attempt,
    step: RecvStep<Result<T, RecvTimeoutError>>,
)
    requires
        was.wf(),
        was.closed,
        before.reads(was),
        before.pending(was),
        now.has_tried(before, was, state, block, elapsed, earlier, attempt, step),
    ensures
        !now.closed,
        step matches RecvStep::Done(Ok(val)) && cloned(before.next_message(was), val),
        state@.unread(before.id@) == was@.unread(before.id@) - 1,
{
}

/// A reader is disconnected only once the writer is gone and everything has been
/// read.
pub proof fn law_disconnected_only_when_all_is_read<T: Clone>(
    before: BusReader<T>,
    now: BusReader<T>,
    was: BusInner<T>,
    state: BusInner<T>,
    block: RecvCondition,
    elapsed: u128,
    earlier: Attempt,
    attempt: Attempt,
    step: RecvStep<Result<T, RecvTimeoutError>>,
)
    requires
        was.wf(),
        before.reads(was),
        now.has_tried(before, was, state, block, elapsed, earlier, attempt, step),
    ensures
        step == RecvStep::Done(Err::<T, _>(RecvTimeoutError::Disconnected)) ==> was.closed
            && !before.pending(was),
        now.closed ==> was.closed && !before.pending(was),
{
}

/// A receive: the reader and the shared state before and after.
#[verifier::reject_recursive_types(T)]
pub struct Receive<T> {
    /// The reader before.
    pub before: BusReader<T>,
    /// The reader after.
    pub now: BusReader<T>,
    /// The shared state before.
    pub was: BusInner<T>,
    /// The shared state after.
    pub state: BusInner<T>,
}

/// Whether these are receives of one reader on a bus whose writer is gone, one
/// after the other. In between, other readers may have received messages or left.
pub open spec fn on_closed_bus<T>(receives: Seq<Receive<T>>) -> bool {
    &&& forall|i: int|
        0 <= i < receives.len() ==> {
            &&& (#[trigger] receives[i]).was.wf()
            &&& receives[i].was.closed
            &&& receives[i].before.reads(receives[i].was)
            &&& receives[i].now.id == receives[i].before.id
        }
    &&& forall|i: int, j: int|
        #![trigger receives[i], receives[j]]
        0 <= i && j == i + 1 && j < receives.len() ==> {
            &&& receives[j].before == receives[i].now
            &&& receives[j].was@.log == receives[i].state@.log
            &&& receives[j].was@.cursor(receives[j].before.id@) == receives[i].state@.cursor(
                receives[j].before.id@,
            )
        }
}

/// Where a reader is after some of its receives on a bus whose writer is gone.
proof fn lemma_on_closed_bus<T>(receives: Seq<Receive<T>>, i: int)
    requires
        on_closed_bus(receives),
        forall|k: int|
            0 <= k < receives.len() ==> {
                let r = #[trigger] receives[k];
                r.state@ == if r.before.pending(r.was) {
                    r.was@.received(r.before.id@)
                } else {
                    r.was@
                }
            },
        0 <= i < receives.len(),
    ensures
        ({
            let first = receives[0];
            let id = first.before.id@;
            let unread = first.was@.unread(id);
            &&& receives[i].before.id@ == id
            &&& receives[i].was@.log == first.was@.log
            &&& receives[i].was@.cursor(id) == first.was@.cursor(id) + if i < unread {
                i
            } else {
                unread
            }
        }),
    decreases i,
{
    law_unread_is_bounded(receives[0].was, receives[0].before.id@);
    if i > 0 {
        lemma_on_closed_bus(receives, i - 1);
        let last = receives[i - 1];
        assert(receives[i].before == last.now);
        assert(last.was@.counted(last.before.id@));
    }
}

/// Once the writer is gone, a reader that does not wait receives exactly what it
/// has yet to read, in order, and is disconnected from then on.
pub proof fn law_closed_bus_gives_out_the_rest<T: Clone>(
    receives: Seq<Receive<T>>,
    results: Seq<Result<T, TryRecvError>>,
    i: int,
)
    requires
        on_closed_bus(receives),
        results.len() == receives.len(),
        forall|k: int|
            0 <= k < receives.len() ==> {
                let r = #[trigger] receives[k];
                r.now.has_polled(r.before, r.was, r.state, results[k])
            },
        0 <= i < receives.len(),
    ensures
        ({
            let first = receives[0];
            let id = first.before.id@;
            let message = first.was@.log[first.was@.cursor(id) + i];
            if i < first.was@.unread(id) {
                results[i] matches Ok(val) && handed_over(
                    message,
                    val,
                    receives[i].before.last(receives[i].was),
                )
            } else {
                results[i] == Err::<T, _>(TryRecvError::Disconnected)
            }
        }),
{
    lemma_on_closed_bus(receives, i);
}

/// Once the writer is gone, no try of a reader leads to waiting, whatever it does
/// otherwise while there is nothing to read: it receives what it has yet to read,
/// in order, and from then on it is disconnected, at the latest when it looks for
/// the second time.
pub proof fn law_closed_bus_ends_every_wait<T: Clone>(
    receives: Seq<Receive<T>>,
    block: RecvCondition,
    elapsed: Seq<u128>,
    earlier: Seq<Attempt>,
    attempts: Seq<Attempt>,
    steps: Seq<RecvStep<Result<T, RecvTimeoutError>>>,
    i: int,
)
    requires
        on_closed_bus(receives),
        elapsed.len() == receives.len(),
        earlier.len() == receives.len(),
        attempts.len() == receives.len(),
        steps.len() == receives.len(),
        forall|k: int|
            0 <= k < receives.len() ==> {
                let r = #[trigger] receives[k];
                r.now.has_tried(
                    r.before,
                    r.was,
                    r.state,
                    block,
                    elapsed[k],
                    earlier[k],
                    attempts[k],
                    steps[k],
                )
            },
        0 <= i < receives.len(),
    ensures
        ({
            let first = receives[0];
            let id = first.before.id@;
            let message = first.was@.log[first.was@.cursor(id) + i];
            if i < first.was@.unread(id) {
                steps[i] matches RecvStep::Done(Ok(val)) && handed_over(
                    message,
                    val,
                    receives[i].before.last(receives[i].was),
                )
            } else if receives[i].before.closed || earlier[i].was_closed {
                steps[i] == RecvStep::Done(Err::<T, _>(RecvTimeoutError::Disconnected))
            } else {
                steps[i] == RecvStep::<Result<T, RecvTimeoutError>>::Again
                    && attempts[i].was_closed
            }
        }),
{
    lemma_on_closed_bus(receives, i);
}

/// When all the readers that a message was written for take it from its seat, one
/// after the other, every one finds it there, all but the last get a clone, the
/// last gets the message itself, and the seat is then empty. In between, a writer
/// may have begun to wait for the seat.
pub proof fn law_all_takes_of_a_message<T: Clone>(
    val: T,
    readers: usize,
    before: Seq<Seat<T>>,
    now: Seq<Seat<T>>,
    taken: Seq<(T, Option<usize>)>,
    i: int,
)
    requires
        before.len() == readers,
        now.len() == readers,
        taken.len() == readers,
        readers > 0 ==> before[0].holds(val, readers),
        forall|k: int|
            0 <= k < readers && (#[trigger] before[k]).readable() ==> now[k].has_given(
                before[k],
                taken[k],
            ),
        forall|k: int, j: int|
            #![trigger now[k], before[j]]
            0 <= k && j == k + 1 && j < readers ==> before[j].state == now[k].state
                && before[j].read == now[k].read,
        0 <= i < readers,
    ensures
        before[i].readable(),
        before[i].max() == readers,
        before[i].val() == Some(val),
        handed_over(val, taken[i].0, i == readers - 1),
        now[i].read == i + 1,
        now[i].val() == if i == readers - 1 {
            None
        } else {
            Some(val)
        },
    decreases i,
{
    if i > 0 {
        law_all_takes_of_a_message(val, readers, before, now, taken, i - 1);
        assert(before[i].state == now[i - 1].state);
        assert(now[i - 1].has_given(before[i - 1], taken[i - 1]));
    }
}

/// The books of a bus: there are as many counts of missed reads as seats, the
/// tail is one of the seats, no seat has been read or missed more often than it
/// was written for, none was written for more readers than ever joined, no more
/// readers have left than are counted, and no thread is left in the cache.
pub proof fn law_books_balance<T>(bus: Bus<T>, slot: int)
    requires
        bus.wf(),
        0 <= slot < bus.state.len,
    ensures
        bus.state.ring@.len() == bus.state.len,
        bus.rleft@.len() == bus.state.len,
        bus.state.tail < bus.state.len,
        bus.rleft@[slot] + bus.state.ring[slot].read <= bus.state.ring[slot].max(),
        bus.state.ring[slot].max() <= bus.state@.cursors.len(),
        bus.state.departures().len() <= bus.readers,
        bus.cache@.len() == 0,
{
    vstd::arithmetic::div_mod::lemma_mod_bound(
        bus.state@.log.len() as int,
        bus.state.len as int,
    );
    assert(bus.state.seat_wf(slot));
    assert(bus.rleft@[slot] == bus.state.debts()[slot]);
    bus.state@.lemma_live_count(bus.state.capacity());
}

/// A thread that waits for as long as it takes does not give up: it either
/// receives a message or finds the bus closed.
pub proof fn law_blocking_receive_never_times_out<T: Clone>(
    before: BusReader<T>,
    now: BusReader<T>,
    was: BusInner<T>,
    state: BusInner<T>,
    elapsed: u128,
    earlier: Attempt,
    attempt: Attempt,
    step: RecvStep<Result<T, RecvTimeoutError>>,
)
    requires
        now.has_tried(
            before,
            was,
            state,
            RecvCondition::Block,
            elapsed,
            earlier,
            attempt,
            step,
        ),
    ensures
        step != RecvStep::Done(Err::<T, _>(RecvTimeoutError::Timeout)),
{
}

/// A thread that waits for a limited time gives up only after that time, and is
/// never parked for longer than is left of it.
pub proof fn law_timeouts_are_kept(timeout: Duration, elapsed: u128, spent: nat)
    ensures
        waiting_step(RecvCondition::Timeout(timeout), elapsed, spent) is Done
            ==> nanoseconds(timeout) < elapsed,
        waiting_step(RecvCondition::Timeout(timeout), elapsed, spent) matches RecvStep::Park(
            time,
        ) ==> time <= nanoseconds(timeout) - elapsed && time <= SPINTIME,
{
}

/// On a bus that can hold no messages there is never anything to read.
pub proof fn law_nothing_to_read_without_capacity<T>(state: BusInner<T>, reader: BusReader<T>)
    requires
        state.wf(),
        state.capacity() == 0,
        reader.reads(state),
    ensures
        !reader.pending(state),
{
    law_unread_is_bounded(state, reader.id@);
}

/// The writer that waits on a full bus is registered where each reader that
/// stands in its way reads next.
pub proof fn law_blocked_writer_is_where_readers_are<T>(
    before: Bus<T>,
    now: Bus<T>,
    ticket: usize,
    reader: BusReader<T>,
)
    requires
        before.wf(),
        now.has_refused(before, Some(ticket)),
        reader.reads(now.state),
        now.state@.unread(reader.id@) == now.state.capacity(),
    ensures
        now.state.parked()[reader.head as int] == Some(ticket),
{
    let n = before.state@.log.len() as int;
    let len = before.state.len as int;
    crate::position::lemma_next_slot(n, len);
    vstd::arithmetic::div_mod::lemma_mod_sub_multiples_vanish(n + 1, len);
    vstd::arithmetic::div_mod::lemma_mod_bound(n + 1, len);
}

/// Whoever waits for a message at the tail is due to be unparked once a message
/// is placed on the bus.
pub proof fn law_waiting_readers_are_woken<T>(before: Bus<T>, now: Bus<T>, val: T, ticket: usize)
    requires
        before.wf(),
        now.wf(),
        before.state.capacity() > 0,
        now.has_placed(before, val),
        before.state.waiters().contains((ticket, before.state.tail)),
    ensures
        now.state.wakeups().contains(ticket),
{
    let n = before.state@.log.len() as int;
    let len = before.state.len as int;
    if now.state.tail == before.state.tail {
        crate::position::lemma_same_slot(n + 1, n, len);
    }
    let waiters = before.state.waiters();
    let tail = now.state.tail;
    let gone = waiters.filter(waits_elsewhere(tail));
    let i = choose|i: int| 0 <= i < waiters.len() && waiters[i] == (ticket, before.state.tail);
    waiters.lemma_filter_contains(waits_elsewhere(tail), i);
    let k = choose|k: int| 0 <= k < gone.len() && gone[k] == (ticket, before.state.tail);
    assert(woken(waiters, tail)[k] == ticket);
    assert(now.state.wakeups()[before.state.wakeups().len() + k] == ticket);
}

/// Whoever waits for a message, wherever it is, is due to be unparked once the
/// writer is gone, and nobody is left waiting.
pub proof fn law_closing_wakes_every_waiting_reader<T>(
    before: Bus<T>,
    state: BusInner<T>,
    ticket: usize,
    head: usize,
)
    requires
        before.ends_as(state),
        before.state.waiters().contains((ticket, head)),
    ensures
        state.wakeups().contains(ticket),
        state.waiters().len() == 0,
{
    let waiters = before.state.waiters();
    let i = choose|i: int| 0 <= i < waiters.len() && waiters[i] == (ticket, head);
    assert(state.wakeups()[before.state.wakeups().len() + i] == ticket);
}

/// Once the writer is gone, nobody waits for a message: whatever a reader tries, it
/// does not tell the bus that it waits.
pub proof fn law_nobody_waits_on_a_closed_bus<T: Clone>(
    before: BusReader<T>,
    now: BusReader<T>,
    was: BusInner<T>,
    state: BusInner<T>,
    block: RecvCondition,
    elapsed: u128,
    earlier: Attempt,
    attempt: Attempt,
    step: RecvStep<Result<T, RecvTimeoutError>>,
)
    requires
        was.wf(),
        was.closed,
        now.has_tried(before, was, state, block, elapsed, earlier, attempt, step),
    ensures
        was.waiters().len() == 0,
        state.waiters().len() == 0,
        !(step is Park),
{
}

/// Of the threads that wait, none is forgotten: each goes on waiting or is due
/// to be unparked.
pub proof fn law_no_waiting_thread_is_forgotten(waiters: Seq<(usize, usize)>, tail: usize)
    ensures
        staying(waiters, tail).len() + woken(waiters, tail).len() == waiters.len(),
    decreases waiters.len(),
{
    reveal(Seq::filter);
    if waiters.len() > 0 {
        law_no_waiting_thread_is_forgotten(waiters.drop_last(), tail);
    }
}

/// A message is gone from its seat exactly once every reader that it was written
/// for has read it.
pub proof fn law_last_reader_takes_the_message<T>(
    before: BusInner<T>,
    now: BusInner<T>,
    reader: BusReader<T>,
)
    requires
        before.wf(),
        now.wf(),
        reader.reads(before),
        reader.pending(before),
        reader.has_received(before, now),
    ensures
        now.ring[reader.head as int].val() is None <==> now@.expecting(
            before@.cursor(reader.id@),
        ).len() + now.debts()[reader.head as int] == 0,
{
    let h = before@;
    let n = h.log.len() as int;
    let len = before.len as int;
    let c = h.cursor(reader.id@);
    let slot = reader.head as int;
    assert(h.counted(reader.id@));
    crate::position::lemma_message_slot(n, len, c);
    assert(before.seat_wf(slot));
    assert(now.seat_wf(slot));
    h.lemma_received(reader.id@, c);
    h.lemma_finite(c);
    assert(before.debts()[slot] == before.missed(slot));
    assert(now.debts()[slot] == now.missed(slot));
}

} // verus!
