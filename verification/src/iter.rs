//! Receiving one message after the other.
use crate::inner::BusInner;
use crate::reader::{Attempt, BusReader, RecvCondition, RecvError, RecvStep};
use vstd::prelude::*;

verus! {

/// An iterator over the messages that a reader receives.
#[verifier::reject_recursive_types(T)]
pub struct BusIter<'a, T>(pub &'a mut BusReader<T>);

/// An iterator over the messages that a reader receives, which owns the reader.
#[verifier::reject_recursive_types(T)]
pub struct BusIntoIter<T>(pub BusReader<T>);

/// What came of an attempt to receive a message, told by what came of an attempt
/// to get the next item: the items end where the reader finds the bus closed.
pub open spec fn item_received<T>(step: RecvStep<Option<T>>) -> RecvStep<Result<T, RecvError>> {
    match step {
        RecvStep::Done(Some(val)) => RecvStep::Done(Ok(val)),
        RecvStep::Done(None) => RecvStep::Done(Err(RecvError)),
        RecvStep::Again => RecvStep::Again,
        RecvStep::Park(time) => RecvStep::Park(time),
    }
}

/// The item that a received message is: there is none once the bus is closed.
fn item<T>(step: RecvStep<Result<T, RecvError>>) -> (item: RecvStep<Option<T>>)
    ensures
        item_received(item) == step,
{
    match step {
        RecvStep::Done(Ok(val)) => RecvStep::Done(Some(val)),
        RecvStep::Done(Err(error)) => {
            assert(error == RecvError);
            RecvStep::Done(None)
        },
        RecvStep::Again => RecvStep::Again,
        RecvStep::Park(time) => RecvStep::Park(time),
    }
}

impl<T> BusReader<T> {
    /// Returns an iterator that waits for messages. It ends when the reader
    /// finds the bus closed.
    pub fn iter(&mut self) -> (iter: BusIter<'_, T>)
        ensures
            *iter.0 == *old(self),
            *final(self) == *final(iter.0),
    {
        BusIter(self)
    }

    /// Turns the reader into an iterator that waits for messages.
    pub fn into_iter(self) -> (iter: BusIntoIter<T>)
        ensures
            iter.0 == self,
    {
        BusIntoIter(self)
    }
}

impl<'a, T: Clone> BusIter<'a, T> {
    /// Tries once to get the next item.
    pub fn next(&mut self, state: &mut BusInner<T>, attempt: &mut Attempt) -> (step: RecvStep<
        Option<T>,
    >)
        requires
            old(state).wf(),
            (*old(self).0).reads(*old(state)),
        ensures
            final(state).wf(),
            (*final(self).0).reads(*final(state)),
            (*final(self).0).id == (*old(self).0).id,
            (*final(self).0).has_tried(
                *old(self).0,
                *old(state),
                *final(state),
                RecvCondition::Block,
                0,
                *old(attempt),
                *final(attempt),
                crate::reader::unlimited(item_received(step)),
            ),
            *final(final(self).0) == *final(old(self).0),
    {
        item(self.0.recv(state, attempt))
    }
}

impl<T: Clone> BusIntoIter<T> {
    /// Tries once to get the next item.
    pub fn next(&mut self, state: &mut BusInner<T>, attempt: &mut Attempt) -> (step: RecvStep<
        Option<T>,
    >)
        requires
            old(state).wf(),
            old(self).0.reads(*old(state)),
        ensures
            final(state).wf(),
            final(self).0.reads(*final(state)),
            final(self).0.id == old(self).0.id,
            final(self).0.has_tried(
                old(self).0,
                *old(state),
                *final(state),
                RecvCondition::Block,
                0,
                *old(attempt),
                *final(attempt),
                crate::reader::unlimited(item_received(step)),
            ),
    {
        item(self.0.recv(state, attempt))
    }
}

} // verus!
