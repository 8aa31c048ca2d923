//! What a bus has done so far, as its contracts speak of it: every message that
//! was sent, and how far each reader has come.
use vstd::prelude::*;
use vstd::set_lib::*;

verus! {

/// The history of a bus.
///
/// Readers are numbered in the order in which they joined. A reader's cursor is
/// the number of the message that it reads next; it is `None` once the bus has
/// taken note that the reader left.
#[verifier::ext_equal]
#[verifier::reject_recursive_types(T)]
pub struct History<T> {
    /// Every message, in the order in which they were sent.
    pub log: Seq<T>,
    /// The cursor of every reader that ever joined.
    pub cursors: Seq<Option<nat>>,
    /// The readers that have left without the bus having taken note, in the
    /// order in which they left.
    pub leavers: Seq<int>,
}

impl<T> History<T> {
    /// The history of a new bus.
    pub open spec fn start() -> History<T> {
        History { log: Seq::empty(), cursors: Seq::empty(), leavers: Seq::empty() }
    }

    /// Whether the bus still counts reader `id`.
    pub open spec fn counted(self, id: int) -> bool {
        0 <= id < self.cursors.len() && self.cursors[id] is Some
    }

    /// Whether reader `id` has joined and not left.
    pub open spec fn live(self, id: int) -> bool {
        self.counted(id) && !self.leavers.contains(id)
    }

    /// The number of the message that reader `id` reads next.
    pub open spec fn cursor(self, id: int) -> int {
        self.cursors[id]->0 as int
    }

    /// How many messages reader `id` has yet to read.
    pub open spec fn unread(self, id: int) -> int {
        self.log.len() - self.cursor(id)
    }

    /// The readers that the bus counts.
    pub open spec fn audience(self) -> Set<int> {
        Set::new(|id: int| self.counted(id))
    }

    /// The readers that have joined and not left.
    pub open spec fn live_readers(self) -> Set<int> {
        Set::new(|id: int| self.live(id))
    }

    /// The readers that the bus counts and that have yet to read message `m`.
    pub open spec fn expecting(self, m: int) -> Set<int> {
        Set::new(|id: int| self.counted(id) && self.cursor(id) <= m)
    }

    /// A reader joins: the first message that it will read is the next one sent.
    pub open spec fn joined(self) -> History<T> {
        History { cursors: self.cursors.push(Some(self.log.len())), ..self }
    }

    /// Reader `id` reads one message.
    pub open spec fn received(self, id: int) -> History<T> {
        History { cursors: self.cursors.update(id, Some((self.cursor(id) + 1) as nat)), ..self }
    }

    /// Reader `id` leaves.
    pub open spec fn departed(self, id: int) -> History<T> {
        History { leavers: self.leavers.push(id), ..self }
    }

    /// The bus takes note of the first of the readers that have left.
    pub open spec fn noted(self) -> History<T> {
        History {
            cursors: self.cursors.update(self.leavers[0], None),
            leavers: self.leavers.skip(1),
            ..self
        }
    }

    /// The bus takes note of all the readers that have left.
    pub open spec fn settled(self) -> History<T> {
        History {
            cursors: Seq::new(
                self.cursors.len(),
                |id: int|
                    if self.leavers.contains(id) {
                        None
                    } else {
                        self.cursors[id]
                    },
            ),
            leavers: Seq::empty(),
            ..self
        }
    }

    /// A message is sent over a bus that can hold `capacity` unread messages. A
    /// bus that can hold none keeps no message for anyone: every reader is past
    /// the message at once.
    pub open spec fn published(self, val: T, capacity: int) -> History<T> {
        History {
            log: self.log.push(val),
            cursors: if capacity == 0 {
                self.cursors.map_values(
                    |c: Option<nat>|
                        match c {
                            Some(_) => Some(self.log.len() + 1),
                            None => None,
                        },
                )
            } else {
                self.cursors
            },
            ..self
        }
    }

    /// No reader is more than `capacity` messages behind or ahead of the last
    /// message, and the readers whose leaving is to be noted are distinct
    /// readers that the bus counts.
    pub open spec fn wf(self, capacity: int) -> bool {
        &&& forall|id: int| #[trigger]
            self.counted(id) ==> self.log.len() - capacity <= self.cursor(id) <= self.log.len()
        &&& self.leavers.no_duplicates()
        &&& forall|i: int|
            0 <= i < self.leavers.len() ==> self.counted(#[trigger] self.leavers[i])
    }

    /// Only finitely many readers are counted, live or expecting a message, and no
    /// more are counted than ever joined.
    pub proof fn lemma_finite(self, m: int)
        ensures
            self.audience().finite(),
            self.audience().len() <= self.cursors.len(),
            self.live_readers().finite(),
            self.expecting(m).finite(),
    {
        lemma_int_range(0, self.cursors.len() as int);
        let all = set_int_range(0, self.cursors.len() as int);
        lemma_len_subset(self.audience(), all);
        lemma_len_subset(self.live_readers(), all);
        lemma_len_subset(self.expecting(m), all);
    }

    /// How joining changes the readers that are counted and that expect message
    /// `m`.
    pub proof fn lemma_joined(self, m: int)
        ensures
            self.joined().audience().len() == self.audience().len() + 1,
            m < self.log.len() ==> self.joined().expecting(m) == self.expecting(m),
    {
        let next = self.joined();
        let id = self.cursors.len() as int;
        self.lemma_finite(m);
        assert forall|i: int| next.counted(i) <==> self.counted(i) || i == id by {}
        assert(next.audience() =~= self.audience().insert(id));
        if m < self.log.len() {
            assert(next.expecting(m) =~= self.expecting(m));
        }
    }

    /// How reading changes the readers that are counted and that expect message
    /// `m`.
    pub proof fn lemma_received(self, id: int, m: int)
        requires
            self.counted(id),
        ensures
            self.received(id).audience() == self.audience(),
            m != self.cursor(id) ==> self.received(id).expecting(m) == self.expecting(m),
            m == self.cursor(id) ==> self.expecting(m).len() > 0
                && self.received(id).expecting(m).len() == self.expecting(m).len() - 1,
    {
        let next = self.received(id);
        self.lemma_finite(m);
        assert(next.audience() =~= self.audience());
        if m == self.cursor(id) {
            assert(self.expecting(m).contains(id));
            assert(next.expecting(m) =~= self.expecting(m).remove(id));
        } else {
            assert(next.expecting(m) =~= self.expecting(m));
        }
    }

    /// How noting that a reader left changes the readers that are counted and
    /// that expect message `m`.
    pub proof fn lemma_noted(self, m: int)
        requires
            self.leavers.len() > 0,
            self.counted(self.leavers[0]),
        ensures
            self.audience().len() > 0,
            self.noted().audience().len() == self.audience().len() - 1,
            m < self.cursor(self.leavers[0]) ==> self.noted().expecting(m) == self.expecting(m),
            m >= self.cursor(self.leavers[0]) ==> self.expecting(m).len() > 0
                && self.noted().expecting(m).len() == self.expecting(m).len() - 1,
    {
        let next = self.noted();
        let id = self.leavers[0];
        self.lemma_finite(m);
        assert(self.audience().contains(id));
        assert(next.audience() =~= self.audience().remove(id));
        if m >= self.cursor(id) {
            assert(self.expecting(m).contains(id));
            assert(next.expecting(m) =~= self.expecting(m).remove(id));
        } else {
            assert(next.expecting(m) =~= self.expecting(m));
        }
    }

    /// How sending changes the readers that are counted and that expect message
    /// `m`: all that are counted expect the new message.
    pub proof fn lemma_published(self, val: T, capacity: int, m: int)
        requires
            0 <= capacity,
            self.wf(capacity),
        ensures
            self.published(val, capacity).audience() == self.audience(),
            capacity > 0 ==> self.published(val, capacity).expecting(m) == self.expecting(m),
            m == self.log.len() ==> self.expecting(m) == self.audience(),
    {
        let next = self.published(val, capacity);
        assert(next.cursors.len() == self.cursors.len());
        assert forall|i: int| next.counted(i) <==> self.counted(i) by {}
        assert(next.audience() =~= self.audience());
        if capacity > 0 {
            assert(next.expecting(m) =~= self.expecting(m));
        }
        if m == self.log.len() {
            assert(self.expecting(m) =~= self.audience());
        }
    }

    /// A history stays well-formed when the bus takes note of the first of the
    /// readers that have left.
    pub proof fn lemma_noted_wf(self, capacity: int)
        requires
            self.wf(capacity),
            self.leavers.len() > 0,
        ensures
            self.noted().wf(capacity),
    {
        let next = self.noted();
        assert forall|id: int| #[trigger] next.counted(id) implies next.log.len() - capacity
            <= next.cursor(id) <= next.log.len() by {
            assert(self.counted(id));
        }
        assert forall|i: int| 0 <= i < next.leavers.len() implies next.counted(
            #[trigger] next.leavers[i],
        ) by {
            assert(self.counted(self.leavers[i + 1]));
        }
    }

    /// Taking note of the readers that have left, one after the other, comes to
    /// the same as taking note of all at once.
    pub proof fn lemma_noted_settled(self)
        requires
            self.leavers.len() > 0,
            self.leavers.no_duplicates(),
            forall|i: int| 0 <= i < self.leavers.len() ==> self.counted(#[trigger] self.leavers[i]),
        ensures
            self.noted().settled() == self.settled(),
    {
        let next = self.noted();
        assert forall|id: int|
            self.leavers.contains(id) <==> (id == self.leavers[0] || next.leavers.contains(id)) by {
            if self.leavers.contains(id) {
                let i = choose|i: int| 0 <= i < self.leavers.len() && self.leavers[i] == id;
                if i > 0 {
                    assert(next.leavers[i - 1] == id);
                }
            }
            if next.leavers.contains(id) {
                let i = choose|i: int| 0 <= i < next.leavers.len() && next.leavers[i] == id;
                assert(self.leavers[i + 1] == id);
            }
        }
        assert(next.settled().cursors =~= self.settled().cursors);
    }

    /// A history in which nobody's leaving is to be noted is settled.
    pub proof fn lemma_settled(self)
        requires
            self.leavers.len() == 0,
        ensures
            self.settled() == self,
    {
        assert(self.settled().cursors =~= self.cursors);
        assert(self.settled().leavers =~= self.leavers);
    }

    /// The bus counts the live readers and those whose leaving is to be noted.
    pub proof fn lemma_live_count(self, capacity: int)
        requires
            self.wf(capacity),
        ensures
            self.live_readers().len() + self.leavers.len() == self.audience().len(),
    {
        self.lemma_finite(0);
        let gone = self.leavers.to_set();
        self.leavers.unique_seq_to_set();
        vstd::seq_lib::seq_to_set_is_finite(self.leavers);
        assert(self.audience() =~= self.live_readers().union(gone)) by {
            assert forall|id: int| gone.contains(id) implies self.counted(id) by {
                let i = choose|i: int| 0 <= i < self.leavers.len() && self.leavers[i] == id;
                assert(self.counted(self.leavers[i]));
            }
        }
        assert(self.live_readers().disjoint(gone));
        vstd::set_lib::lemma_set_disjoint_lens(self.live_readers(), gone);
    }
}

/// Something that happens to a bus.
pub enum Event<T> {
    /// A message is placed on it.
    Broadcast(T),
    /// A reader joins.
    Join,
    /// A reader receives a message.
    Receive(int),
    /// A reader leaves.
    Leave(int),
    /// The bus takes note of the readers that have left.
    Note,
}

/// Whether an event can happen to a bus that can hold `capacity` messages.
pub open spec fn possible<T>(h: History<T>, event: Event<T>, capacity: int) -> bool {
    match event {
        Event::Broadcast(_) => capacity > 0 ==> forall|id: int| #[trigger]
            h.counted(id) ==> h.unread(id) < capacity,
        Event::Join => true,
        Event::Receive(id) => h.live(id) && h.unread(id) > 0,
        Event::Leave(id) => h.live(id),
        Event::Note => true,
    }
}

/// What the history is after an event.
pub open spec fn after<T>(h: History<T>, event: Event<T>, capacity: int) -> History<T> {
    match event {
        Event::Broadcast(val) => h.published(val, capacity),
        Event::Join => h.joined(),
        Event::Receive(id) => h.received(id),
        Event::Leave(id) => h.departed(id),
        Event::Note => h.settled(),
    }
}

/// A history stays well-formed when something happens.
pub proof fn lemma_event_wf<T>(h: History<T>, event: Event<T>, capacity: int)
    requires
        0 <= capacity,
        h.wf(capacity),
        possible(h, event, capacity),
    ensures
        after(h, event, capacity).wf(capacity),
{
    let next = after(h, event, capacity);
    assert forall|id: int| #[trigger] next.counted(id) implies next.log.len() - capacity
        <= next.cursor(id) <= next.log.len() by {
        assert(id < h.cursors.len() ==> h.counted(id));
    }
    assert forall|i: int| 0 <= i < next.leavers.len() implies next.counted(
        #[trigger] next.leavers[i],
    ) by {
        if i < h.leavers.len() {
            assert(h.counted(h.leavers[i]));
        }
    }
}

} // verus!
