//! Readers that take a message from one seat at the same time.
//!
//! Taking a message is three accesses to the seat: a reader looks how many
//! others are done, fetches the message, and counts itself as done. This is
//! about what can happen when the accesses of several readers come in any order
//! whatever, and some readers leave in place of reading.
//!
//! It is told of a model of one seat, which keeps in mind how far each reader has
//! come. The first laws say that what a [`Seat`] does is what the model does; the
//! others say what holds of the model.
use crate::seat::{left_behind, Seat};
use vstd::prelude::*;
use vstd::set_lib::*;

verus! {

/// How far a reader has come.
pub enum Phase {
    /// It has not begun.
    Waiting,
    /// It has seen as many others done.
    Looked(int),
    /// It has fetched the message.
    Fetched,
    /// It has counted itself as done.
    Counted,
    /// It has left without reading.
    Left,
}

/// The model of a seat with a message, and of how far each of the readers has come
/// that the message was written for.
#[verifier::ext_equal]
#[verifier::reject_recursive_types(T)]
pub struct SharedSeat<T> {
    /// The message, unless it has been taken away.
    pub val: Option<T>,
    /// How many readers are done.
    pub read: int,
    /// How far each reader has come.
    pub phases: Seq<Phase>,
}

/// An access of one reader to the seat.
pub enum Access {
    /// It looks how many others are done.
    Look(int),
    /// It fetches the message.
    Fetch(int),
    /// It counts itself as done.
    Count(int),
    /// It leaves.
    Leave(int),
}

impl<T> SharedSeat<T> {
    /// The model of a seat whose readers have come as far as `phases` says.
    pub open spec fn of(seat: Seat<T>, phases: Seq<Phase>) -> SharedSeat<T> {
        SharedSeat { val: seat.val(), read: seat.read as int, phases }
    }

    /// A seat in which a message for `max` readers has just been placed.
    pub open spec fn placed(val: T, max: nat) -> SharedSeat<T> {
        SharedSeat { val: Some(val), read: 0, phases: Seq::new(max, |i: int| Phase::Waiting) }
    }

    /// How many readers the message was written for.
    pub open spec fn max(self) -> int {
        self.phases.len() as int
    }

    /// The readers that are done.
    pub open spec fn done(self) -> Set<int> {
        Set::new(|i: int| 0 <= i < self.max() && self.phases[i] is Counted)
    }

    /// The readers that have left.
    pub open spec fn gone(self) -> Set<int> {
        Set::new(|i: int| 0 <= i < self.max() && self.phases[i] is Left)
    }

    /// Whether an access comes next for its reader.
    pub open spec fn possible(self, access: Access) -> bool {
        match access {
            Access::Look(i) => 0 <= i < self.max() && self.phases[i] is Waiting,
            Access::Fetch(i) => 0 <= i < self.max() && self.phases[i] is Looked,
            Access::Count(i) => 0 <= i < self.max() && self.phases[i] is Fetched,
            Access::Leave(i) => 0 <= i < self.max() && self.phases[i] is Waiting,
        }
    }

    /// The seat after an access.
    pub open spec fn after(self, access: Access) -> SharedSeat<T> {
        match access {
            Access::Look(i) => SharedSeat {
                phases: self.phases.update(i, Phase::Looked(self.read)),
                ..self
            },
            Access::Fetch(i) => SharedSeat {
                val: left_behind(self.val, self.phases[i]->Looked_0, self.max()),
                phases: self.phases.update(i, Phase::Fetched),
                ..self
            },
            Access::Count(i) => SharedSeat {
                read: self.read + 1,
                phases: self.phases.update(i, Phase::Counted),
                ..self
            },
            Access::Leave(i) => SharedSeat { phases: self.phases.update(i, Phase::Left), ..self },
        }
    }

    /// Whether the accesses can come one after the other.
    pub open spec fn all_possible(self, accesses: Seq<Access>) -> bool
        decreases accesses.len(),
    {
        accesses.len() == 0 || {
            &&& self.all_possible(accesses.drop_last())
            &&& self.after_all(accesses.drop_last()).possible(accesses.last())
        }
    }

    /// The seat after all the accesses.
    pub open spec fn after_all(self, accesses: Seq<Access>) -> SharedSeat<T>
        decreases accesses.len(),
    {
        if accesses.len() == 0 {
            self
        } else {
            self.after_all(accesses.drop_last()).after(accesses.last())
        }
    }

    /// What always holds of a seat in which `val` has been placed.
    pub open spec fn sound(self, val: T) -> bool {
        &&& self.read == self.done().len()
        &&& forall|i: int|
            0 <= i < self.max() && (#[trigger] self.phases[i]) is Looked
                ==> self.phases[i]->Looked_0 <= self.read
        &&& self.val == Some(val) || {
            &&& self.val is None
            &&& forall|i: int|
                0 <= i < self.max() ==> (#[trigger] self.phases[i]) is Fetched
                    || self.phases[i] is Counted
        }
    }

    /// Only finitely many readers are done or have left, and a reader that is
    /// neither is one more.
    proof fn lemma_some_left(self, i: int)
        requires
            0 <= i < self.max(),
        ensures
            self.done().finite(),
            self.gone().finite(),
            self.done().len() + self.gone().len() <= self.max(),
            !(self.phases[i] is Counted) && !(self.phases[i] is Left) ==> self.done().len()
                + self.gone().len() < self.max(),
    {
        let all = set_int_range(0, self.max());
        lemma_int_range(0, self.max());
        lemma_len_subset(self.done(), all);
        lemma_len_subset(self.gone(), all);
        assert(self.done().disjoint(self.gone()));
        lemma_set_disjoint_lens(self.done(), self.gone());
        let both = self.done() + self.gone();
        lemma_len_subset(both, all);
        if !(self.phases[i] is Counted) && !(self.phases[i] is Left) {
            lemma_len_subset(both.insert(i), all);
        }
    }

    /// What always holds still holds after an access.
    proof fn lemma_sound(self, val: T, access: Access)
        requires
            self.sound(val),
            self.possible(access),
        ensures
            self.after(access).sound(val),
    {
        let next = self.after(access);
        match access {
            Access::Look(i) => {
                assert(next.done() =~= self.done());
            },
            Access::Fetch(i) => {
                assert(next.done() =~= self.done());
                if self.phases[i]->Looked_0 + 1 == self.max() {
                    assert forall|j: int| 0 <= j < self.max() implies (
                    #[trigger] next.phases[j]) is Fetched || next.phases[j] is Counted by {
                        if j != i && !(self.phases[j] is Counted) {
                            let all = set_int_range(0, self.max());
                            lemma_int_range(0, self.max());
                            self.lemma_some_left(i);
                            lemma_len_subset(self.done().insert(i).insert(j), all);
                        }
                    }
                }
            },
            Access::Count(i) => {
                self.lemma_some_left(i);
                assert(next.done() =~= self.done().insert(i));
            },
            Access::Leave(i) => {
                assert(next.done() =~= self.done());
            },
        }
    }

    /// What always holds holds after any accesses.
    proof fn lemma_always_sound(val: T, max: nat, accesses: Seq<Access>)
        requires
            Self::placed(val, max).all_possible(accesses),
        ensures
            Self::placed(val, max).after_all(accesses).sound(val),
            Self::placed(val, max).after_all(accesses).max() == max,
        decreases accesses.len(),
    {
        let start = Self::placed(val, max);
        if accesses.len() == 0 {
            assert(start.done() =~= Set::empty());
        } else {
            Self::lemma_always_sound(val, max, accesses.drop_last());
            start.after_all(accesses.drop_last()).lemma_sound(val, accesses.last());
        }
    }
}

/// Placing a message in a seat is placing it in the model: no reader has begun.
pub proof fn law_placing_begins_the_model<T>(seat: Seat<T>, val: T, readers: usize)
    requires
        seat.holds(val, readers),
    ensures
        SharedSeat::of(seat, Seq::new(readers as nat, |i: int| Phase::Waiting))
            == SharedSeat::placed(val, readers as nat),
{
}

/// Looking how many readers a seat counts as done is the reader's look in the
/// model. Neither it nor leaving touches the seat.
pub proof fn law_looking_is_a_look<T>(seat: Seat<T>, phases: Seq<Phase>, reader: int)
    requires
        phases.len() == seat.max(),
        0 <= reader < phases.len(),
    ensures
        SharedSeat::of(seat, phases.update(reader, Phase::Looked(seat.read as int)))
            == SharedSeat::of(seat, phases).after(Access::Look(reader)),
        SharedSeat::of(seat, phases.update(reader, Phase::Left)) == SharedSeat::of(
            seat,
            phases,
        ).after(Access::Leave(reader)),
{
}

/// Fetching the message from a seat, for a reader that has looked, is the reader's
/// fetch in the model.
pub proof fn law_fetching_is_a_fetch<T: Clone>(
    before: Seat<T>,
    now: Seat<T>,
    read: usize,
    fetched: (T, Option<usize>),
    phases: Seq<Phase>,
    reader: int,
)
    requires
        phases.len() == before.max(),
        0 <= reader < phases.len(),
        phases[reader] == Phase::Looked(read as int),
        now.has_let_fetch(before, read, fetched),
    ensures
        now.max() == phases.len(),
        SharedSeat::of(now, phases.update(reader, Phase::Fetched)) == SharedSeat::of(
            before,
            phases,
        ).after(Access::Fetch(reader)),
{
}

/// That a seat counts a reader as done is the reader's count in the model.
pub proof fn law_counting_is_a_count<T>(
    before: Seat<T>,
    now: Seat<T>,
    phases: Seq<Phase>,
    reader: int,
)
    requires
        phases.len() == before.max(),
        0 <= reader < phases.len(),
        now.has_counted(before),
    ensures
        now.max() == phases.len(),
        SharedSeat::of(now, phases.update(reader, Phase::Counted)) == SharedSeat::of(
            before,
            phases,
        ).after(Access::Count(reader)),
{
}

/// Taking the message from a seat is the reader's three accesses in the model, one
/// right after the other.
pub proof fn law_taking_is_three_accesses<T: Clone>(
    before: Seat<T>,
    now: Seat<T>,
    taken: (T, Option<usize>),
    phases: Seq<Phase>,
    reader: int,
)
    requires
        phases.len() == before.max(),
        0 <= reader < phases.len(),
        phases[reader] is Waiting,
        now.has_given(before, taken),
    ensures
        ({
            let model = SharedSeat::of(before, phases);
            let accesses = seq![
                Access::Look(reader),
                Access::Fetch(reader),
                Access::Count(reader),
            ];
            &&& model.all_possible(accesses)
            &&& now.max() == phases.len()
            &&& SharedSeat::of(now, phases.update(reader, Phase::Counted)) == model.after_all(
                accesses,
            )
        }),
{
    let model = SharedSeat::of(before, phases);
    let accesses = seq![Access::Look(reader), Access::Fetch(reader), Access::Count(reader)];
    reveal_with_fuel(SharedSeat::all_possible, 4);
    reveal_with_fuel(SharedSeat::after_all, 4);
    assert(accesses.drop_last() =~= seq![Access::Look(reader), Access::Fetch(reader)]);
    assert(accesses.drop_last().drop_last() =~= seq![Access::Look(reader)]);
    assert(accesses.drop_last().drop_last().drop_last() =~= Seq::empty());
    assert(SharedSeat::of(now, phases.update(reader, Phase::Counted)) =~= model.after_all(
        accesses,
    ));
}

/// In whatever order the accesses come, a reader that is neither done nor has left
/// finds fewer readers done than the message was written for.
pub proof fn law_readers_never_exceed<T>(val: T, max: nat, accesses: Seq<Access>, reader: int)
    requires
        SharedSeat::placed(val, max).all_possible(accesses),
        0 <= reader < max,
        !(SharedSeat::placed(val, max).after_all(accesses).phases[reader] is Counted),
        !(SharedSeat::placed(val, max).after_all(accesses).phases[reader] is Left),
    ensures
        SharedSeat::placed(val, max).after_all(accesses).read < max,
{
    SharedSeat::lemma_always_sound(val, max, accesses);
    SharedSeat::placed(val, max).after_all(accesses).lemma_some_left(reader);
}

/// In whatever order the accesses come, a reader that fetches the message finds
/// it in its seat.
pub proof fn law_fetching_finds_the_message<T>(
    val: T,
    max: nat,
    accesses: Seq<Access>,
    reader: int,
)
    requires
        SharedSeat::placed(val, max).all_possible(accesses),
        SharedSeat::placed(val, max).after_all(accesses).possible(Access::Fetch(reader)),
    ensures
        SharedSeat::placed(val, max).after_all(accesses).val == Some(val),
        SharedSeat::placed(val, max).after_all(accesses).phases[reader]->Looked_0 < max,
{
    SharedSeat::lemma_always_sound(val, max, accesses);
    SharedSeat::placed(val, max).after_all(accesses).lemma_some_left(reader);
}

/// In whatever order the accesses come, the message is taken away only once no
/// other reader will look for it.
pub proof fn law_message_is_taken_away_last<T>(
    val: T,
    max: nat,
    accesses: Seq<Access>,
    reader: int,
)
    requires
        SharedSeat::placed(val, max).all_possible(accesses),
        SharedSeat::placed(val, max).after_all(accesses).val is None,
        0 <= reader < max,
    ensures
        ({
            let phase = SharedSeat::placed(val, max).after_all(accesses).phases[reader];
            phase is Fetched || phase is Counted
        }),
{
    SharedSeat::lemma_always_sound(val, max, accesses);
}

/// In whatever order the accesses come, once as many readers are done or known
/// to have left as the message was written for, no reader is still at the seat:
/// the writer can use it again.
pub proof fn law_free_seat_has_no_readers<T>(
    val: T,
    max: nat,
    accesses: Seq<Access>,
    noted: int,
    reader: int,
)
    requires
        SharedSeat::placed(val, max).all_possible(accesses),
        noted <= SharedSeat::placed(val, max).after_all(accesses).gone().len(),
        SharedSeat::placed(val, max).after_all(accesses).read == max - noted,
        0 <= reader < max,
    ensures
        ({
            let phase = SharedSeat::placed(val, max).after_all(accesses).phases[reader];
            phase is Counted || phase is Left
        }),
{
    SharedSeat::lemma_always_sound(val, max, accesses);
    SharedSeat::placed(val, max).after_all(accesses).lemma_some_left(reader);
}

} // verus!
