//! Spinning and durations: how a thread that has to wait spends its time.
use core::time::Duration;
use parking_lot_core::SpinWait;
use vstd::prelude::*;

verus! {

/// How long a thread that has stopped spinning is parked at a time, in
/// nanoseconds.
pub const SPINTIME: u32 = 100_000;

/// How many times a thread spins before it is parked instead.
pub const SPIN_LIMIT: u32 = 10;

/// The spin counter of `parking_lot_core`.
#[verifier::external_type_specification]
#[verifier::external_body]
pub struct ExSpinWait(parking_lot_core::SpinWait);

/// How many times a spin counter has let its owner spin.
pub uninterp spec fn spins_spent(spin: SpinWait) -> nat;

/// The length of a duration in whole nanoseconds.
pub uninterp spec fn nanoseconds(duration: Duration) -> nat;

/// `parking_lot_core::SpinWait::new`: a counter that has not spun yet.
#[verifier::external_body]
fn new_spin() -> (spin: SpinWait)
    ensures
        spins_spent(spin) == 0,
{
    SpinWait::new()
}

/// `parking_lot_core::SpinWait::spin`: spins or yields for a moment and answers
/// `true`, until it has done so as many times as the limit allows; from then on
/// it answers `false` at once.
#[verifier::external_body]
fn spin_once(spin: &mut SpinWait) -> (spun: bool)
    ensures
        spun == (spins_spent(*old(spin)) < 10),
        spins_spent(*final(spin)) == spins_spent(*old(spin)) + (if spun {
            1nat
        } else {
            0nat
        }),
{
    spin.spin()
}

/// `core::time::Duration::as_nanos`: the duration's length in nanoseconds.
#[verifier::external_body]
pub(crate) fn duration_nanoseconds(duration: &Duration) -> (length: u128)
    ensures
        length == nanoseconds(*duration),
{
    duration.as_nanos()
}

/// How long a thread is to be parked that waits no longer than `limit`
/// nanoseconds and has done so for `elapsed`, if it is to wait any longer: what
/// is left, but no more than the usual time.
pub open spec fn parking_time(limit: int, elapsed: int) -> Option<int> {
    if limit < elapsed {
        None
    } else if limit - elapsed < SPINTIME {
        Some(limit - elapsed)
    } else {
        Some(SPINTIME as int)
    }
}

/// How long a thread is to be parked that waits no longer than `limit`
/// nanoseconds and has done so for `elapsed`.
pub fn time_to_park(limit: u128, elapsed: u128) -> (time: Option<u64>)
    ensures
        time is Some <==> parking_time(limit as int, elapsed as int) is Some,
        time is Some ==> time->0 == parking_time(limit as int, elapsed as int)->0,
{
    match limit.checked_sub(elapsed) {
        Some(left) => if left < SPINTIME as u128 {
            Some(left as u64)
        } else {
            Some(SPINTIME as u64)
        },
        None => None,
    }
}

/// The patience of one thread during one call: it spins a few times before it
/// asks to be parked.
pub struct Backoff {
    spin: SpinWait,
}

impl Backoff {
    /// How many times the thread has spun so far.
    pub closed spec fn spent(&self) -> nat {
        spins_spent(self.spin)
    }

    /// A thread that has not spun yet.
    pub fn new() -> (backoff: Backoff)
        ensures
            backoff.spent() == 0,
    {
        Backoff { spin: new_spin() }
    }

    /// Spins once more, unless the limit is reached: then the thread should be
    /// parked instead, at most for as many nanoseconds.
    pub fn pause(&mut self) -> (park: Option<u64>)
        ensures
            old(self).spent() < SPIN_LIMIT ==> {
                &&& park is None
                &&& final(self).spent() == old(self).spent() + 1
            },
            old(self).spent() >= SPIN_LIMIT ==> {
                &&& park == Some(SPINTIME as u64)
                &&& final(self).spent() == old(self).spent()
            },
    {
        if spin_once(&mut self.spin) {
            None
        } else {
            Some(SPINTIME as u64)
        }
    }
}

} // verus!
