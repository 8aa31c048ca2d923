//! What readers get of what the writer sends, over any number of calls.
use super::outcomes::{
    law_placing_reaches_every_reader, law_receiving_takes_away_the_first,
    law_refusing_touches_no_reader, law_what_a_try_comes_to, law_what_a_try_leaves_behind, on_bus,
    to_come,
};
use crate::bus::Bus;
use crate::inner::BusInner;
use crate::reader::{Attempt, BusReader, RecvCondition, RecvStep, RecvTimeoutError};
use vstd::prelude::*;

verus! {

/// A call on a bus, with what came of it.
#[verifier::reject_recursive_types(T)]
pub enum Call<T> {
    /// The writer has offered a message, and it was accepted or not.
    Offer { val: T, accepted: bool, ticket: Option<usize> },
    /// A reader has tried to receive a message.
    Try {
        before: BusReader<T>,
        now: BusReader<T>,
        block: RecvCondition,
        elapsed: u128,
        earlier: Attempt,
        attempt: Attempt,
        step: RecvStep<Result<T, RecvTimeoutError>>,
    },
    /// A reader has joined.
    Join,
    /// A reader has left.
    Leave { reader: BusReader<T> },
    /// A thread that was due has been handed out.
    Unpark,
}

/// Whether the call can have led from `before` to `now`.
pub open spec fn leads_to<T: Clone>(before: Bus<T>, call: Call<T>, now: Bus<T>) -> bool {
    match call {
        Call::Offer { val, accepted, ticket } => {
            &&& accepted == before.state.has_room()
            &&& if accepted {
                now.has_placed(before, val)
            } else {
                now.has_refused(before, ticket)
            }
        },
        Call::Try { before: reader, now: after, block, elapsed, earlier, attempt, step } => {
            &&& reader.reads(before.state)
            &&& after.reads(now.state)
            &&& after.id == reader.id
            &&& after.has_tried(
                reader,
                before.state,
                now.state,
                block,
                elapsed,
                earlier,
                attempt,
                step,
            )
        },
        Call::Join => now.state@ == before.state@.joined() && now.state.len == before.state.len,
        Call::Leave { reader } => {
            &&& reader.reads(before.state)
            &&& now.state@ == before.state@.departed(reader.id@)
            &&& now.state.len == before.state.len
        },
        Call::Unpark => now.state == (BusInner { unpark: now.state.unpark, ..before.state }),
    }
}

/// Whether the calls can have led from each bus to the next.
pub open spec fn all_lead_on<T: Clone>(buses: Seq<Bus<T>>, calls: Seq<Call<T>>) -> bool {
    &&& buses.len() == calls.len() + 1
    &&& forall|i: int| 0 <= i < buses.len() ==> (#[trigger] buses[i]).wf()
    &&& forall|i: int, j: int|
        #![trigger calls[i], buses[j]]
        0 <= i < calls.len() && j == i + 1 ==> leads_to(buses[i], calls[i], buses[j])
}

/// The messages that were accepted, in order.
pub open spec fn accepted<T>(calls: Seq<Call<T>>) -> Seq<T>
    decreases calls.len(),
{
    if calls.len() == 0 {
        Seq::empty()
    } else {
        match calls.last() {
            Call::Offer { val, accepted: true, .. } => accepted(calls.drop_last()).push(val),
            _ => accepted(calls.drop_last()),
        }
    }
}

/// The messages that reader `id` was given, in order.
pub open spec fn given<T>(calls: Seq<Call<T>>, id: int) -> Seq<T>
    decreases calls.len(),
{
    if calls.len() == 0 {
        Seq::empty()
    } else {
        match calls.last() {
            Call::Try { before, step: RecvStep::Done(Ok(val)), .. } => if before.id@ == id {
                given(calls.drop_last(), id).push(val)
            } else {
                given(calls.drop_last(), id)
            },
            _ => given(calls.drop_last(), id),
        }
    }
}

/// What one call does to what a reader has to come.
proof fn lemma_call<T: Clone>(before: Bus<T>, call: Call<T>, now: Bus<T>, id: int)
    requires
        before.wf(),
        now.wf(),
        before.state.len > 1,
        leads_to(before, call, now),
        on_bus(now.state.history@, id),
        id < before.state.history@.cursors.len(),
    ensures
        now.state.len == before.state.len,
        on_bus(before.state.history@, id),
        now.state.history@.cursors.len() >= before.state.history@.cursors.len(),
        to_come(now.state.history@, id) == match call {
            Call::Offer { val, accepted: true, .. } => to_come(before.state.history@, id).push(
                val,
            ),
            Call::Try { before: reader, step: RecvStep::Done(Ok(_)), .. } => if reader.id@ == id {
                to_come(before.state.history@, id).skip(1)
            } else {
                to_come(before.state.history@, id)
            },
            _ => to_come(before.state.history@, id),
        },
        match call {
            Call::Try { before: reader, step: RecvStep::Done(Ok(val)), .. } => reader.id@ == id
                ==> to_come(before.state.history@, id).len() > 0 && cloned(
                to_come(before.state.history@, id)[0],
                val,
            ),
            _ => true,
        },
{
    let h = before.state.history@;
    let next = now.state.history@;
    match call {
        Call::Offer { val, accepted, ticket } => {
            if accepted {
                law_placing_reaches_every_reader(before, now, val);
            } else {
                law_refusing_touches_no_reader(before, now, ticket);
            }
        },
        Call::Try { before: reader, now: after, block, elapsed, earlier, attempt, step } => {
            law_what_a_try_comes_to(
                reader,
                after,
                before.state,
                now.state,
                block,
                elapsed,
                earlier,
                attempt,
                step,
            );
            law_what_a_try_leaves_behind(
                reader,
                after,
                before.state,
                now.state,
                block,
                elapsed,
                earlier,
                attempt,
                step,
            );
            if to_come(h, reader.id@).len() > 0 {
                law_receiving_takes_away_the_first(before.state, now.state, reader);
            }
        },
        Call::Join => {},
        Call::Leave { reader } => {
            if h.leavers.contains(id) {
                let i = choose|i: int| 0 <= i < h.leavers.len() && h.leavers[i] == id;
                assert(next.leavers[i] == id);
            }
        },
        Call::Unpark => {},
    }
}

/// A bus keeps its seats, and never forgets that a reader has joined.
proof fn lemma_shape<T: Clone>(buses: Seq<Bus<T>>, calls: Seq<Call<T>>, i: int)
    requires
        all_lead_on(buses, calls),
        0 <= i < buses.len(),
    ensures
        buses[i].state.len == buses[0].state.len,
        buses[i].state.history@.cursors.len() >= buses[0].state.history@.cursors.len(),
    decreases i,
{
    if i > 0 {
        lemma_shape(buses, calls, i - 1);
        assert(leads_to(buses[i - 1], calls[i - 1], buses[i]));
    }
}

/// Over any calls on an open bus, as long as a reader stays on it: what it has been
/// given is what it had to come, followed by what was accepted since, one after the
/// other, each once and in order, from the first on; and what it has to come is the
/// rest. No message is lost, none comes twice, and none comes before its turn.
pub proof fn law_every_reader_is_given_what_was_accepted<T: Clone>(
    buses: Seq<Bus<T>>,
    calls: Seq<Call<T>>,
    id: int,
)
    requires
        all_lead_on(buses, calls),
        buses[0].state.len > 1,
        on_bus(buses[0].state.history@, id),
        on_bus(buses.last().state.history@, id),
    ensures
        ({
            let sent = to_come(buses[0].state.history@, id) + accepted(calls);
            let got = given(calls, id);
            &&& got.len() <= sent.len()
            &&& forall|k: int| 0 <= k < got.len() ==> cloned(sent[k], #[trigger] got[k])
            &&& to_come(buses.last().state.history@, id) == sent.skip(got.len() as int)
            &&& buses.last().state.len == buses[0].state.len
            &&& buses.last().state.history@.cursors.len() >= buses[0].state.history@.cursors.len()
        }),
    decreases calls.len(),
{
    let first = to_come(buses[0].state.history@, id);
    if calls.len() == 0 {
        assert((first + accepted(calls)).skip(0) =~= first);
    } else {
        let n = calls.len() as int;
        let fewer = calls.drop_last();
        let earlier = buses.drop_last();
        let call = calls.last();
        assert(leads_to(buses[n - 1], calls[n - 1], buses[n]));
        assert(all_lead_on(earlier, fewer)) by {
            assert forall|i: int, j: int|
                #![trigger fewer[i], earlier[j]]
                0 <= i < fewer.len() && j == i + 1 implies leads_to(
                earlier[i],
                fewer[i],
                earlier[j],
            ) by {
                assert(leads_to(buses[i], calls[i], buses[j]));
            }
        }
        lemma_shape(buses, calls, n - 1);
        lemma_call(buses[n - 1], call, buses[n], id);
        law_every_reader_is_given_what_was_accepted(earlier, fewer, id);
        let sent = first + accepted(fewer);
        let got = given(fewer, id);
        let more = first + accepted(calls);
        let now = given(calls, id);
        match call {
            Call::Offer { val, accepted: true, .. } => {
                assert(more =~= sent.push(val));
                assert(sent.push(val).skip(got.len() as int) =~= sent.skip(got.len() as int).push(
                    val,
                ));
            },
            _ => {
                assert(more =~= sent);
                if now.len() > got.len() {
                    assert(sent.skip(got.len() as int).skip(1) =~= sent.skip(
                        got.len() as int + 1,
                    ));
                }
            },
        }
        assert forall|k: int| 0 <= k < now.len() implies cloned(more[k], #[trigger] now[k]) by {
            if k < got.len() {
                assert(cloned(sent[k], got[k]));
                assert(now[k] == got[k]);
            }
        }
    }
}

/// After any calls on an open bus, the next try of a reader gives it the next of the
/// messages that were sent to it and that it has not been given, if and only if there
/// is one, however the reader tries and whoever else has left.
pub proof fn law_the_next_try_gives_the_next_message<T: Clone>(
    buses: Seq<Bus<T>>,
    calls: Seq<Call<T>>,
    reader: BusReader<T>,
    now: BusReader<T>,
    state: BusInner<T>,
    block: RecvCondition,
    elapsed: u128,
    earlier: Attempt,
    attempt: Attempt,
    step: RecvStep<Result<T, RecvTimeoutError>>,
)
    requires
        all_lead_on(buses, calls),
        buses[0].state.len > 1,
        on_bus(buses[0].state.history@, reader.id@),
        reader.reads(buses.last().state),
        now.has_tried(
            reader,
            buses.last().state,
            state,
            block,
            elapsed,
            earlier,
            attempt,
            step,
        ),
    ensures
        ({
            let id = reader.id@;
            let sent = to_come(buses[0].state.history@, id) + accepted(calls);
            let got = given(calls, id).len() as int;
            &&& (step matches RecvStep::Done(Ok(_))) <==> got < sent.len()
            &&& step matches RecvStep::Done(Ok(val)) ==> cloned(sent[got], val)
            &&& step != RecvStep::Done(Err::<T, _>(RecvTimeoutError::Disconnected))
        }),
{
    law_every_reader_is_given_what_was_accepted(buses, calls, reader.id@);
    law_what_a_try_comes_to(
        reader,
        now,
        buses.last().state,
        state,
        block,
        elapsed,
        earlier,
        attempt,
        step,
    );
}

} // verus!
