//! The unbounded first-in-first-out channels over which readers and the bus
//! exchange notices, as `crossbeam_channel` provides them.
//!
//! Both ends of a channel are always held together, as one pair, so that
//! whoever holds the pair exclusively is the only one to send or to receive.
use crossbeam_channel::{Receiver, Sender};
use vstd::prelude::*;

verus! {

/// The sending end of a channel of `crossbeam_channel`.
#[verifier::external_type_specification]
#[verifier::external_body]
#[verifier::reject_recursive_types(T)]
pub struct ExSender<T>(crossbeam_channel::Sender<T>);

/// The receiving end of a channel of `crossbeam_channel`.
#[verifier::external_type_specification]
#[verifier::external_body]
#[verifier::reject_recursive_types(T)]
pub struct ExReceiver<T>(crossbeam_channel::Receiver<T>);

/// The numbers that wait in a channel, the oldest first.
pub uninterp spec fn numbers_queued(channel: (Sender<usize>, Receiver<usize>)) -> Seq<usize>;

/// Whether the pair is the two ends of one channel, which has no other end.
pub uninterp spec fn numbers_linked(channel: (Sender<usize>, Receiver<usize>)) -> bool;

/// The pairs that wait in a channel, the oldest first.
pub uninterp spec fn pairs_queued(
    channel: (Sender<(usize, usize)>, Receiver<(usize, usize)>),
) -> Seq<(usize, usize)>;

/// Whether the pair is the two ends of one channel, which has no other end.
pub uninterp spec fn pairs_linked(
    channel: (Sender<(usize, usize)>, Receiver<(usize, usize)>),
) -> bool;

/// `crossbeam_channel::unbounded` for numbers: the two ends of a new channel,
/// in which nothing waits.
#[verifier::external_body]
pub(crate) fn number_channel() -> (channel: (Sender<usize>, Receiver<usize>))
    ensures
        numbers_linked(channel),
        numbers_queued(channel) == Seq::<usize>::empty(),
{
    crossbeam_channel::unbounded()
}

/// `crossbeam_channel::Sender::send` for numbers: the number joins the queue at
/// its end. The call fails only once the receiving end is gone, and here that
/// end is at hand.
#[verifier::external_body]
pub(crate) fn send_number(channel: &mut (Sender<usize>, Receiver<usize>), number: usize)
    requires
        numbers_linked(*old(channel)),
    ensures
        numbers_linked(*final(channel)),
        numbers_queued(*final(channel)) == numbers_queued(*old(channel)).push(number),
{
    channel.0.send(number).unwrap()
}

/// `crossbeam_channel::Receiver::try_recv` for numbers: the oldest number that
/// waits leaves the queue, and there is none exactly if the queue is empty.
#[verifier::external_body]
pub(crate) fn next_number(channel: &mut (Sender<usize>, Receiver<usize>)) -> (number: Option<usize>)
    requires
        numbers_linked(*old(channel)),
    ensures
        numbers_linked(*final(channel)),
        numbers_queued(*old(channel)).len() == 0 ==> number is None && numbers_queued(
            *final(channel),
        ) == numbers_queued(*old(channel)),
        numbers_queued(*old(channel)).len() > 0 ==> number == Some(
            numbers_queued(*old(channel))[0],
        ) && numbers_queued(*final(channel)) == numbers_queued(*old(channel)).skip(1),
{
    channel.1.try_recv().ok()
}

/// `crossbeam_channel::Receiver::len` for numbers: how many numbers wait.
#[verifier::external_body]
pub(crate) fn count_numbers(channel: &(Sender<usize>, Receiver<usize>)) -> (count: usize)
    requires
        numbers_linked(*channel),
    ensures
        count == numbers_queued(*channel).len(),
{
    channel.1.len()
}

/// `crossbeam_channel::unbounded` for pairs: the two ends of a new channel, in
/// which nothing waits.
#[verifier::external_body]
pub(crate) fn pair_channel() -> (channel: (Sender<(usize, usize)>, Receiver<(usize, usize)>))
    ensures
        pairs_linked(channel),
        pairs_queued(channel) == Seq::<(usize, usize)>::empty(),
{
    crossbeam_channel::unbounded()
}

/// `crossbeam_channel::Sender::send` for pairs: the pair joins the queue at its
/// end. The call fails only once the receiving end is gone, and here that end
/// is at hand.
#[verifier::external_body]
pub(crate) fn send_pair(
    channel: &mut (Sender<(usize, usize)>, Receiver<(usize, usize)>),
    pair: (usize, usize),
)
    requires
        pairs_linked(*old(channel)),
    ensures
        pairs_linked(*final(channel)),
        pairs_queued(*final(channel)) == pairs_queued(*old(channel)).push(pair),
{
    channel.0.send(pair).unwrap()
}

/// `crossbeam_channel::Receiver::try_recv` for pairs: the oldest pair that waits
/// leaves the queue, and there is none exactly if the queue is empty.
#[verifier::external_body]
pub(crate) fn next_pair(
    channel: &mut (Sender<(usize, usize)>, Receiver<(usize, usize)>),
) -> (pair: Option<(usize, usize)>)
    requires
        pairs_linked(*old(channel)),
    ensures
        pairs_linked(*final(channel)),
        pairs_queued(*old(channel)).len() == 0 ==> pair is None && pairs_queued(*final(channel))
            == pairs_queued(*old(channel)),
        pairs_queued(*old(channel)).len() > 0 ==> pair == Some(pairs_queued(*old(channel))[0])
            && pairs_queued(*final(channel)) == pairs_queued(*old(channel)).skip(1),
{
    channel.1.try_recv().ok()
}

} // verus!
