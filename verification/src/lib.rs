//! A bounded bus: one writer broadcasts messages, and every reader receives
//! every message that is sent while it is on the bus, in order.
//!
//! Messages are kept in a ring of seats. Each seat counts how many readers its
//! message was written for and how many have read it, and the writer goes on
//! only where the seat ahead is free. The writer is a [`Bus`], its readers are
//! [`BusReader`]s, and both work on the shared state, a [`BusInner`], one at a
//! time. Where a thread has to wait, the functions here say what it does next,
//! and the thread does it.
pub mod atomic_option;
pub mod bus;
pub mod history;
pub mod inner;
pub mod interleaving;
pub mod iter;
pub mod laws;
pub mod position;
pub mod queue;
pub mod reader;
pub mod seat;
pub mod timing;

pub use crate::atomic_option::AtomicOption;
pub use crate::bus::{BroadcastStep, Bus};
pub use crate::inner::BusInner;
pub use crate::iter::{BusIntoIter, BusIter};
pub use crate::reader::{
    Attempt, BusReader, RecvCondition, RecvError, RecvStep, RecvTimeoutError, TryRecvError,
};
pub use crate::seat::{MutSeatState, Seat, SeatState};
pub use crate::timing::Backoff;
