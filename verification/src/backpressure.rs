//! The read-ahead gate: a counting semaphore that bounds the batches whose
//! acknowledgement is still under way, and so how far the source is read
//! ahead of what has been acknowledged.

use vstd::prelude::*;

verus! {

/// Most messages that may wait for their acknowledgement when reading ahead.
pub const MAX_ACK_PENDING: usize = 10000;

/// Number of batches that may be in flight at once: with read-ahead, as many
/// as keep the messages in flight under the bound; without it, one.
pub open spec fn spec_max_ack_tasks(read_ahead: bool, batch_size: usize) -> usize {
    if read_ahead {
        MAX_ACK_PENDING / batch_size
    } else {
        1
    }
}

/// Number of batches that may be in flight at once. With read-ahead the batch
/// size has to be positive.
pub fn max_ack_tasks(read_ahead: bool, batch_size: usize) -> (r: usize)
    requires
        read_ahead ==> batch_size > 0,
    ensures
        r == spec_max_ack_tasks(read_ahead, batch_size),
{
    if read_ahead {
        MAX_ACK_PENDING / batch_size
    } else {
        1
    }
}

/// Number of slots that are taken.
pub open spec fn taken(slots: Seq<Option<usize>>) -> nat
    decreases slots.len(),
{
    if slots.len() == 0 {
        0
    } else {
        taken(slots.drop_last()) + (if slots.last() is Some {
            1nat
        } else {
            0nat
        })
    }
}

/// Number of messages that the batches of the taken slots hold.
pub open spec fn loaded(slots: Seq<Option<usize>>) -> nat
    decreases slots.len(),
{
    if slots.len() == 0 {
        0
    } else {
        loaded(slots.drop_last()) + (match slots.last() {
            Some(n) => n as nat,
            None => 0nat,
        })
    }
}

/// The place of the first free slot, or the number of slots where all are
/// taken.
pub open spec fn first_free(slots: Seq<Option<usize>>) -> int
    decreases slots.len(),
{
    if slots.len() == 0 {
        0
    } else if first_free(slots.drop_last()) < slots.len() - 1 {
        first_free(slots.drop_last())
    } else if slots.last() is None {
        slots.len() - 1
    } else {
        slots.len() as int
    }
}

/// The slots after the slot at `slot` was taken, for a batch that holds no
/// message yet: a free slot is taken, and a slot behind the last one is added.
pub open spec fn with_taken(slots: Seq<Option<usize>>, slot: int) -> Seq<Option<usize>> {
    if 0 <= slot < slots.len() {
        slots.update(slot, Some(0usize))
    } else {
        slots.push(Some(0usize))
    }
}

/// The slots after the batch of the slot at `slot` was found to hold `n`
/// messages. Nothing changes where the slot is not taken.
pub open spec fn with_load(slots: Seq<Option<usize>>, slot: int, n: usize) -> Seq<Option<usize>> {
    if 0 <= slot < slots.len() && slots[slot] is Some {
        slots.update(slot, Some(n))
    } else {
        slots
    }
}

/// The slots after the slot at `slot` was given back. Nothing changes where
/// the slot is not taken.
pub open spec fn with_freed(slots: Seq<Option<usize>>, slot: int) -> Seq<Option<usize>> {
    if 0 <= slot < slots.len() && slots[slot] is Some {
        slots.update(slot, None)
    } else {
        slots
    }
}

/// No batch in flight holds more than `batch_size` messages.
pub open spec fn within(slots: Seq<Option<usize>>, batch_size: usize) -> bool {
    forall|i: int| 0 <= i < slots.len() ==> (#[trigger] slots[i] matches Some(n) ==> n <= batch_size)
}

/// What a change of one slot does to the counts.
pub proof fn lemma_update(slots: Seq<Option<usize>>, slot: int, value: Option<usize>)
    requires
        0 <= slot < slots.len(),
    ensures
        taken(slots.update(slot, value)) + (if slots[slot] is Some {
            1nat
        } else {
            0nat
        }) == taken(slots) + (if value is Some {
            1nat
        } else {
            0nat
        }),
        loaded(slots.update(slot, value)) + (match slots[slot] {
            Some(n) => n as nat,
            None => 0nat,
        }) == loaded(slots) + (match value {
            Some(n) => n as nat,
            None => 0nat,
        }),
    decreases slots.len(),
{
    let changed = slots.update(slot, value);
    if slot == slots.len() - 1 {
        assert(changed.drop_last() =~= slots.drop_last());
    } else {
        assert(changed.drop_last() =~= slots.drop_last().update(slot, value));
        lemma_update(slots.drop_last(), slot, value);
    }
}

/// What a new slot does to the counts.
pub proof fn lemma_push(slots: Seq<Option<usize>>, value: Option<usize>)
    ensures
        taken(slots.push(value)) == taken(slots) + (if value is Some {
            1nat
        } else {
            0nat
        }),
        loaded(slots.push(value)) == loaded(slots) + (match value {
            Some(n) => n as nat,
            None => 0nat,
        }),
{
    assert(slots.push(value).drop_last() =~= slots);
}

/// The first free slot is free, the slots before it are taken, and there is
/// none exactly where every slot is taken.
pub proof fn lemma_first_free(slots: Seq<Option<usize>>)
    ensures
        0 <= first_free(slots) <= slots.len(),
        first_free(slots) < slots.len() ==> slots[first_free(slots)] is None,
        forall|i: int| 0 <= i < first_free(slots) ==> (#[trigger] slots[i]) is Some,
        first_free(slots) == slots.len() <==> taken(slots) == slots.len(),
        taken(slots) <= slots.len(),
    decreases slots.len(),
{
    if slots.len() > 0 {
        let shorter = slots.drop_last();
        lemma_first_free(shorter);
        assert forall|i: int| 0 <= i < shorter.len() implies #[trigger] shorter[i] == slots[i] by {}
        assert forall|i: int| 0 <= i < first_free(slots) implies (#[trigger] slots[i]) is Some by {
            if i < shorter.len() {
                assert(shorter[i] is Some);
            }
        }
    }
}

/// Where no batch in flight holds more than `batch_size` messages, the
/// messages in flight are no more than `batch_size` for each batch in flight.
pub proof fn lemma_within(slots: Seq<Option<usize>>, batch_size: usize)
    requires
        within(slots, batch_size),
    ensures
        loaded(slots) <= taken(slots) * batch_size,
    decreases slots.len(),
{
    if slots.len() > 0 {
        let shorter = slots.drop_last();
        assert forall|i: int| 0 <= i < shorter.len() implies (#[trigger] shorter[i] matches Some(n)
            ==> n <= batch_size) by {
            assert(shorter[i] == slots[i]);
        }
        lemma_within(shorter, batch_size);
        assert(slots[slots.len() - 1] == slots.last());
        assert((taken(shorter) + 1) * batch_size == taken(shorter) * batch_size + batch_size)
            by (nonlinear_arith);
    }
}

/// The right to have one batch in flight. It is taken before the batch is
/// read, and given back when the acknowledgement of the batch has ended.
#[derive(Debug)]
pub struct Permit {
    slot: usize,
}

impl Permit {
    /// The slot of the read-ahead gate that the permit stands for.
    pub closed spec fn slot(&self) -> int {
        self.slot as int
    }
}

/// The read-ahead gate. It holds one slot for each batch that may be in
/// flight; a slot that is taken knows how many messages its batch holds.
#[derive(Debug)]
pub struct ReadAheadGate {
    capacity: usize,
    slots: Vec<Option<usize>>,
    held: usize,
}

impl ReadAheadGate {
    /// Number of permits.
    pub closed spec fn capacity(&self) -> usize {
        self.capacity
    }

    /// The slots that were used so far: free, or taken for a batch of so many
    /// messages.
    pub closed spec fn slots(&self) -> Seq<Option<usize>> {
        self.slots@
    }

    /// Number of permits that are taken: the batches in flight.
    pub open spec fn in_flight(&self) -> nat {
        taken(self.slots())
    }

    /// Number of messages in flight: those of the batches whose permit is
    /// taken.
    pub open spec fn messages_in_flight(&self) -> nat {
        loaded(self.slots())
    }

    /// No more slots are in use than there are permits.
    pub closed spec fn wf(&self) -> bool {
        &&& self.slots@.len() <= self.capacity
        &&& self.held == taken(self.slots@)
    }

    /// No more permits are taken than there are.
    pub proof fn lemma_wf(&self)
        requires
            self.wf(),
        ensures
            self.in_flight() <= self.capacity(),
            self.slots().len() <= self.capacity(),
    {
        lemma_first_free(self.slots@);
    }

    /// A read-ahead gate for the given settings, with every permit free.
    pub fn new(read_ahead: bool, batch_size: usize) -> (r: Self)
        requires
            read_ahead ==> batch_size > 0,
        ensures
            r.wf(),
            r.capacity() == spec_max_ack_tasks(read_ahead, batch_size),
            r.slots() == Seq::<Option<usize>>::empty(),
    {
        ReadAheadGate { capacity: max_ack_tasks(read_ahead, batch_size), slots: Vec::new(), held: 0 }
    }

    /// A read-ahead gate with `capacity` permits, all of them free.
    pub fn with_capacity(capacity: usize) -> (r: Self)
        ensures
            r.wf(),
            r.capacity() == capacity,
            r.slots() == Seq::<Option<usize>>::empty(),
    {
        ReadAheadGate { capacity, slots: Vec::new(), held: 0 }
    }

    /// Number of permits.
    pub fn permits(&self) -> (r: usize)
        ensures
            r == self.capacity(),
    {
        self.capacity
    }

    /// Number of permits that are taken.
    pub fn permits_taken(&self) -> (r: usize)
        requires
            self.wf(),
        ensures
            r == self.in_flight(),
    {
        self.held
    }

    /// Number of permits that are free.
    pub fn available(&self) -> (r: usize)
        requires
            self.wf(),
        ensures
            r == self.capacity() - self.in_flight(),
    {
        proof {
            self.lemma_wf();
        }
        self.capacity - self.held
    }

    /// Number of messages that the batch of a permit holds, where the permit
    /// is taken.
    pub fn load_of(&self, permit: &Permit) -> (r: Option<usize>)
        ensures
            r == (if 0 <= permit.slot() < self.slots().len() {
                self.slots()[permit.slot()]
            } else {
                None
            }),
    {
        if permit.slot < self.slots.len() {
            self.slots[permit.slot]
        } else {
            None
        }
    }

    /// Takes a permit if one is free: the first free slot is taken, for a
    /// batch that holds no message yet.
    pub fn try_acquire(&mut self) -> (r: Option<Permit>)
        requires
            old(self).wf(),
        ensures
            final(self).wf(),
            final(self).capacity() == old(self).capacity(),
            r is Some <==> old(self).in_flight() < old(self).capacity(),
            match r {
                Some(permit) => {
                    &&& permit.slot() == first_free(old(self).slots())
                    &&& final(self).slots() == with_taken(old(self).slots(), permit.slot())
                    &&& final(self).in_flight() == old(self).in_flight() + 1
                    &&& final(self).messages_in_flight() == old(self).messages_in_flight()
                },
                None => final(self).slots() == old(self).slots(),
            },
    {
        proof {
            lemma_first_free(self.slots@);
        }
        let mut i: usize = 0;
        while i < self.slots.len() && self.slots[i].is_some()
            invariant
                i <= self.slots@.len(),
                self.slots@ == old(self).slots@,
                forall|j: int| 0 <= j < i ==> (#[trigger] self.slots@[j]) is Some,
            decreases self.slots@.len() - i,
        {
            i += 1;
        }
        proof {
            let f = first_free(self.slots@);
            if f < i {
                assert(self.slots@[f] is Some);
            }
            if i < self.slots@.len() && i < f {
                assert(self.slots@[i as int] is Some);
            }
            assert(i == f);
        }
        if i < self.slots.len() {
            proof {
                lemma_update(self.slots@, i as int, Some(0usize));
            }
            self.slots.set(i, Some(0));
            self.held = self.held + 1;
            Some(Permit { slot: i })
        } else if self.slots.len() < self.capacity {
            proof {
                lemma_push(self.slots@, Some(0usize));
            }
            self.slots.push(Some(0));
            self.held = self.held + 1;
            Some(Permit { slot: i })
        } else {
            None
        }
    }

    /// Records that the batch of a permit holds `n` messages. Nothing
    /// happens where the permit is not taken.
    pub fn load(&mut self, permit: &Permit, n: usize)
        requires
            old(self).wf(),
        ensures
            final(self).wf(),
            final(self).capacity() == old(self).capacity(),
            final(self).slots() == with_load(old(self).slots(), permit.slot(), n),
            final(self).in_flight() == old(self).in_flight(),
    {
        if permit.slot < self.slots.len() && self.slots[permit.slot].is_some() {
            proof {
                lemma_update(self.slots@, permit.slot as int, Some(n));
            }
            self.slots.set(permit.slot, Some(n));
        }
    }

    /// Gives a permit back: its batch is no longer in flight. Nothing happens
    /// where the permit is not taken.
    pub fn release(&mut self, permit: Permit)
        requires
            old(self).wf(),
        ensures
            final(self).wf(),
            final(self).capacity() == old(self).capacity(),
            final(self).slots() == with_freed(old(self).slots(), permit.slot()),
            final(self).in_flight() == (if 0 <= permit.slot() < old(self).slots().len() && old(
                self,
            ).slots()[permit.slot()] is Some {
                old(self).in_flight() - 1
            } else {
                old(self).in_flight() as int
            }),
    {
        if permit.slot < self.slots.len() && self.slots[permit.slot].is_some() {
            proof {
                lemma_update(self.slots@, permit.slot as int, None);
            }
            self.slots.set(permit.slot, None);
            self.held = self.held - 1;
        }
    }

    /// Number of messages in flight: those of the batches whose permit is
    /// taken.
    pub fn count_messages(&self) -> (r: u128)
        requires
            self.wf(),
        ensures
            r == self.messages_in_flight(),
    {
        let mut total: u128 = 0;
        let mut i: usize = 0;
        while i < self.slots.len()
            invariant
                i <= self.slots@.len(),
                total == loaded(self.slots@.take(i as int)),
                total <= i * usize::MAX,
            decreases self.slots@.len() - i,
        {
            proof {
                assert(self.slots@.take(i + 1).drop_last() =~= self.slots@.take(i as int));
                assert((i + 1) * usize::MAX == i * usize::MAX + usize::MAX) by (nonlinear_arith);
                assert(i * usize::MAX <= usize::MAX * usize::MAX) by (nonlinear_arith)
                    requires
                        i <= usize::MAX,
                ;
                assert(usize::MAX * usize::MAX <= 0xffff_ffff_ffff_ffff * 0xffff_ffff_ffff_ffff)
                    by (nonlinear_arith)
                    requires
                        usize::MAX <= 0xffff_ffff_ffff_ffff,
                ;
            }
            match self.slots[i] {
                Some(n) => {
                    total = total + n as u128;
                },
                None => {},
            }
            i += 1;
        }
        assert(self.slots@.take(i as int) =~= self.slots@);
        total
    }

    /// Whether every permit is free: the barrier that a shutdown waits for.
    /// Taking all permits at once succeeds exactly then.
    pub fn drained(&self) -> (r: bool)
        requires
            self.wf(),
        ensures
            r == (self.in_flight() == 0),
    {
        self.held == 0
    }
}

} // verus!
