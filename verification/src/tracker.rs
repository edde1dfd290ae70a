//! The tracker of in-flight messages. It holds one entry for each message
//! that was read from the source and is not yet resolved, counts the signals
//! that downstream persistence sends for it, and hands the entry back, with
//! its promise, once every expected signal has arrived.

use crate::error::Error;
use crate::message::{Message, Offset, OffsetView, ReadAck};
use vstd::prelude::*;

verus! {

/// Where an entry stands.
#[derive(Debug, Clone, Copy, PartialEq, Eq, Structural)]
pub enum Disposition {
    /// Signals are still expected and none of them was a Nak.
    Pending,
    /// Every expected signal arrived and all of them were Acks.
    Ack,
    /// A Nak arrived, or the entry was discarded.
    Nak,
}

/// One in-flight message. `C` is the promise through which the outcome
/// reaches whoever waits for it.
#[derive(Debug)]
pub struct TrackerEntry<C> {
    pub offset: Offset,
    pub completion: C,
    pub expected_signals: u32,
    pub received_signals: u32,
    pub disposition: Disposition,
}

/// What the tracker knows of one offset.
pub struct EntryState<C> {
    pub completion: C,
    pub expected_signals: u32,
    pub received_signals: u32,
    pub disposition: Disposition,
}

impl<C> EntryState<C> {
    /// A newly registered entry: one signal expected, none received.
    pub open spec fn fresh(completion: C) -> EntryState<C> {
        EntryState {
            completion,
            expected_signals: 1,
            received_signals: 0,
            disposition: Disposition::Pending,
        }
    }

    /// The entry after `additional` more signals are expected of it.
    pub open spec fn extended(self, additional: u32) -> EntryState<C> {
        EntryState {
            expected_signals: (self.expected_signals + additional) as u32,
            ..self
        }
    }

    /// The entry after one more signal: a Nak latches.
    pub open spec fn signalled(self, outcome: ReadAck) -> EntryState<C> {
        EntryState {
            received_signals: (self.received_signals + 1) as u32,
            disposition: if outcome == ReadAck::Nak {
                Disposition::Nak
            } else {
                self.disposition
            },
            ..self
        }
    }

    /// Every expected signal has arrived.
    pub open spec fn complete(self) -> bool {
        self.received_signals == self.expected_signals
    }

    /// The entry as it leaves the tracker: what was pending is acknowledged.
    pub open spec fn finalized(self) -> EntryState<C> {
        EntryState {
            disposition: if self.disposition == Disposition::Nak {
                Disposition::Nak
            } else {
                Disposition::Ack
            },
            ..self
        }
    }

    /// The entry as it leaves the tracker unresolved.
    pub open spec fn discarded(self) -> EntryState<C> {
        EntryState { disposition: Disposition::Nak, ..self }
    }

    /// What is reported to the source for the entry.
    pub open spec fn outcome(self) -> ReadAck {
        if self.disposition == Disposition::Ack {
            ReadAck::Ack
        } else {
            ReadAck::Nak
        }
    }
}

impl<C> TrackerEntry<C> {
    pub open spec fn state(self) -> EntryState<C> {
        EntryState {
            completion: self.completion,
            expected_signals: self.expected_signals,
            received_signals: self.received_signals,
            disposition: self.disposition,
        }
    }

    /// What is reported to the source for this entry: an Ack only where the
    /// entry was acknowledged.
    pub fn outcome(&self) -> (r: ReadAck)
        ensures
            r == self.state().outcome(),
    {
        match self.disposition {
            Disposition::Ack => ReadAck::Ack,
            _ => ReadAck::Nak,
        }
    }
}

/// What an entry that left the tracker holds, if one left.
pub open spec fn state_of<C>(entry: Option<TrackerEntry<C>>) -> Option<EntryState<C>> {
    match entry {
        Some(e) => Some(e.state()),
        None => None,
    }
}

/// The entries in flight, by offset.
pub type Entries<C> = Map<OffsetView, EntryState<C>>;

/// No entry in flight has all its signals yet.
pub open spec fn all_waiting<C>(m: Entries<C>) -> bool {
    forall|o: OffsetView| #[trigger]
        m.contains_key(o) ==> m[o].received_signals < m[o].expected_signals
}

/// The entries after an offset is registered. Nothing changes where the
/// offset is already in flight.
pub open spec fn after_insert<C>(m: Entries<C>, o: OffsetView, completion: C) -> Entries<C> {
    if m.contains_key(o) {
        m
    } else {
        m.insert(o, EntryState::fresh(completion))
    }
}

/// Whether an entry can expect `additional` more signals.
pub open spec fn can_extend<C>(m: Entries<C>, o: OffsetView, additional: u32) -> bool {
    m.contains_key(o) && m[o].expected_signals + additional <= u32::MAX
}

/// The entries after one of them expects `additional` more signals.
pub open spec fn after_extend<C>(m: Entries<C>, o: OffsetView, additional: u32) -> Entries<C> {
    if can_extend(m, o, additional) {
        m.insert(o, m[o].extended(additional))
    } else {
        m
    }
}

/// The entry that a signal completes, if it completes one.
pub open spec fn completed_by<C>(m: Entries<C>, o: OffsetView, outcome: ReadAck) -> Option<
    EntryState<C>,
> {
    if m.contains_key(o) && m[o].signalled(outcome).complete() {
        Some(m[o].signalled(outcome).finalized())
    } else {
        None
    }
}

/// The entries after a signal. A signal for an offset that is not in flight
/// changes nothing; the signal that completes an entry removes it.
pub open spec fn after_signal<C>(m: Entries<C>, o: OffsetView, outcome: ReadAck) -> Entries<C> {
    if !m.contains_key(o) {
        m
    } else if m[o].signalled(outcome).complete() {
        m.remove(o)
    } else {
        m.insert(o, m[o].signalled(outcome))
    }
}

/// The tracker of in-flight messages.
#[derive(Debug)]
pub struct Tracker<C> {
    entries: Vec<TrackerEntry<C>>,
}

impl<C> Tracker<C> {
    /// Place of the entry for an offset, if there is one.
    pub closed spec fn position(&self, o: OffsetView) -> Option<int> {
        if exists|i: int| 0 <= i < self.entries@.len() && (#[trigger] self.entries@[i]).offset@ == o {
            Some(
                choose|i: int|
                    0 <= i < self.entries@.len() && (#[trigger] self.entries@[i]).offset@ == o,
            )
        } else {
            None
        }
    }

    /// The entries in flight, by offset.
    pub closed spec fn view(&self) -> Entries<C> {
        Map::new(
            |o: OffsetView| self.position(o) is Some,
            |o: OffsetView| self.entries@[self.position(o).unwrap()].state(),
        )
    }

    /// The offsets in flight, in the order in which they were registered.
    pub closed spec fn offsets(&self) -> Seq<OffsetView> {
        self.entries@.map_values(|e: TrackerEntry<C>| e.offset@)
    }

    /// No offset is held twice, and every entry still waits for a signal.
    pub closed spec fn wf(&self) -> bool {
        &&& forall|i: int, j: int|
            0 <= i < j < self.entries@.len() ==> (#[trigger] self.entries@[i]).offset@ != (
            #[trigger] self.entries@[j]).offset@
        &&& forall|i: int|
            0 <= i < self.entries@.len() ==> (#[trigger] self.entries@[i]).received_signals
                < self.entries@[i].expected_signals
    }

    proof fn lemma_present(&self, i: int)
        requires
            self.wf(),
            0 <= i < self.entries@.len(),
        ensures
            self.position(self.entries@[i].offset@) == Some(i),
            self@.contains_key(self.entries@[i].offset@),
            self@[self.entries@[i].offset@] == self.entries@[i].state(),
    {
        let o = self.entries@[i].offset@;
        let p = self.position(o).unwrap();
        assert(self.entries@[p].offset@ == o);
        if p < i {
            assert(self.entries@[p].offset@ != self.entries@[i].offset@);
        } else if i < p {
            assert(self.entries@[i].offset@ != self.entries@[p].offset@);
        }
    }

    proof fn lemma_absent(&self, o: OffsetView)
        requires
            forall|i: int| 0 <= i < self.entries@.len() ==> (#[trigger] self.entries@[i]).offset@ != o,
        ensures
            self.position(o) is None,
            !self@.contains_key(o),
    {
    }

    proof fn lemma_found(&self, o: OffsetView)
        requires
            self.wf(),
            self@.contains_key(o),
        ensures
            self.position(o) is Some,
            0 <= self.position(o).unwrap() < self.entries@.len(),
            self.entries@[self.position(o).unwrap()].offset@ == o,
            self@[o] == self.entries@[self.position(o).unwrap()].state(),
    {
    }

    /// What holds of every tracker: its entries still wait for a signal, and
    /// the offsets in flight are those of the entries.
    pub proof fn lemma_wf(&self)
        requires
            self.wf(),
        ensures
            all_waiting(self@),
            self@.dom().finite(),
            self@.dom().len() == self.offsets().len(),
            self.offsets().no_duplicates(),
            forall|o: OffsetView| self@.contains_key(o) <==> self.offsets().contains(o),
    {
        assert forall|o: OffsetView| #[trigger] self@.contains_key(o) implies self@[o].received_signals
            < self@[o].expected_signals by {
            self.lemma_found(o);
        }
        let offs = self.offsets();
        assert forall|i: int, j: int| 0 <= i < offs.len() && 0 <= j < offs.len() && i != j implies offs[i]
            != offs[j] by {
            if i < j {
                assert(self.entries@[i].offset@ != self.entries@[j].offset@);
            } else {
                assert(self.entries@[j].offset@ != self.entries@[i].offset@);
            }
        }
        assert forall|o: OffsetView| self@.contains_key(o) <==> offs.contains(o) by {
            if self@.contains_key(o) {
                self.lemma_found(o);
                assert(offs[self.position(o).unwrap()] == o);
            }
            if offs.contains(o) {
                let i = choose|i: int| 0 <= i < offs.len() && offs[i] == o;
                self.lemma_present(i);
            }
        }
        assert(self@.dom() =~= offs.to_set());
        offs.unique_seq_to_set();
        vstd::seq_lib::seq_to_set_is_finite(offs);
    }

    /// A tracker with nothing in flight.
    pub fn new() -> (r: Self)
        ensures
            r.wf(),
            r@ == Entries::<C>::empty(),
            r.offsets() == Seq::<OffsetView>::empty(),
    {
        let r = Tracker { entries: Vec::new() };
        proof {
            assert(r@ =~= Entries::<C>::empty());
            assert(r.offsets() =~= Seq::<OffsetView>::empty());
        }
        r
    }

    /// Number of entries in flight.
    pub fn len(&self) -> (r: usize)
        requires
            self.wf(),
        ensures
            r == self@.dom().len(),
            r == self.offsets().len(),
    {
        proof {
            self.lemma_wf();
        }
        self.entries.len()
    }

    /// Whether nothing is in flight.
    pub fn is_empty(&self) -> (r: bool)
        requires
            self.wf(),
        ensures
            r == (self@ == Entries::<C>::empty()),
            r == (self.offsets().len() == 0),
    {
        proof {
            self.lemma_wf();
            if self.entries@.len() == 0 {
                assert(self@ =~= Entries::<C>::empty());
            } else {
                self.lemma_present(0);
            }
        }
        self.entries.len() == 0
    }

    fn find(&self, offset: &Offset) -> (r: Option<usize>)
        requires
            self.wf(),
        ensures
            match r {
                Some(i) => i < self.entries@.len() && self.entries@[i as int].offset@ == offset@
                    && self@.contains_key(offset@) && self@[offset@] == self.entries@[i as int].state(),
                None => !self@.contains_key(offset@),
            },
    {
        let mut i: usize = 0;
        while i < self.entries.len()
            invariant
                self.wf(),
                i <= self.entries@.len(),
                forall|j: int| 0 <= j < i ==> (#[trigger] self.entries@[j]).offset@ != offset@,
            decreases self.entries@.len() - i,
        {
            if self.entries[i].offset == *offset {
                proof {
                    self.lemma_present(i as int);
                }
                return Some(i);
            }
            i += 1;
        }
        proof {
            self.lemma_absent(offset@);
        }
        None
    }

    /// Whether the offset is in flight.
    pub fn contains(&self, offset: &Offset) -> (r: bool)
        requires
            self.wf(),
        ensures
            r == self@.contains_key(offset@),
    {
        self.find(offset).is_some()
    }

    /// Signals that the entry of an offset expects, if the offset is in
    /// flight.
    pub fn expected_signals(&self, offset: &Offset) -> (r: Option<u32>)
        requires
            self.wf(),
        ensures
            r == (if self@.contains_key(offset@) {
                Some(self@[offset@].expected_signals)
            } else {
                None
            }),
    {
        match self.find(offset) {
            Some(i) => Some(self.entries[i].expected_signals),
            None => None,
        }
    }

    /// Signals that the entry of an offset has received, if the offset is in
    /// flight.
    pub fn received_signals(&self, offset: &Offset) -> (r: Option<u32>)
        requires
            self.wf(),
        ensures
            r == (if self@.contains_key(offset@) {
                Some(self@[offset@].received_signals)
            } else {
                None
            }),
    {
        match self.find(offset) {
            Some(i) => Some(self.entries[i].received_signals),
            None => None,
        }
    }

    /// Where the entry of an offset stands, if the offset is in flight.
    pub fn disposition(&self, offset: &Offset) -> (r: Option<Disposition>)
        requires
            self.wf(),
        ensures
            r == (if self@.contains_key(offset@) {
                Some(self@[offset@].disposition)
            } else {
                None
            }),
    {
        match self.find(offset) {
            Some(i) => Some(self.entries[i].disposition),
            None => None,
        }
    }

    /// Registers a message under its offset, with the promise through which
    /// its outcome will be reported. The entry expects one signal. An offset
    /// that is already in flight is refused, and the tracker stays as it was.
    pub fn insert(&mut self, message: &Message, completion: C) -> (r: Result<(), Error>)
        requires
            old(self).wf(),
        ensures
            final(self).wf(),
            r is Ok <==> !old(self)@.contains_key(message.offset@),
            r matches Err(e) ==> e is DuplicateOffset,
            final(self)@ == after_insert(old(self)@, message.offset@, completion),
            final(self).offsets() == (if r is Ok {
                old(self).offsets().push(message.offset@)
            } else {
                old(self).offsets()
            }),
    {
        if self.find(&message.offset).is_some() {
            return Err(Error::DuplicateOffset);
        }
        let ghost before = *self;
        let entry = TrackerEntry {
            offset: message.offset.clone(),
            completion,
            expected_signals: 1,
            received_signals: 0,
            disposition: Disposition::Pending,
        };
        self.entries.push(entry);
        proof {
            let n = before.entries@.len() as int;
            assert(self.wf());
            assert forall|o: OffsetView| #[trigger]
                self@.contains_key(o) <==> after_insert(before@, message.offset@, completion).contains_key(
                    o,
                ) by {
                if self@.contains_key(o) {
                    self.lemma_found(o);
                    let p = self.position(o).unwrap();
                    if p < n {
                        before.lemma_present(p);
                    }
                }
                if before@.contains_key(o) {
                    before.lemma_found(o);
                    self.lemma_present(before.position(o).unwrap());
                }
                if o == message.offset@ {
                    self.lemma_present(n);
                }
            }
            assert forall|o: OffsetView| #[trigger] self@.contains_key(o) implies self@[o]
                == after_insert(before@, message.offset@, completion)[o] by {
                self.lemma_found(o);
                let p = self.position(o).unwrap();
                if p < n {
                    before.lemma_present(p);
                }
            }
            assert(self@ =~= after_insert(before@, message.offset@, completion));
            assert(self.offsets() =~= before.offsets().push(message.offset@));
        }
        Ok(())
    }

    /// Makes the entry of an offset expect `additional` more signals, as when
    /// one input fans out into several outputs. Fails, and changes nothing,
    /// where the offset is not in flight or the count would not fit.
    pub fn extend(&mut self, offset: &Offset, additional: u32) -> (r: Result<(), Error>)
        requires
            old(self).wf(),
        ensures
            final(self).wf(),
            r is Ok <==> can_extend(old(self)@, offset@, additional),
            r matches Err(e) ==> (if old(self)@.contains_key(offset@) {
                e is TooManySignals
            } else {
                e is UnknownOffset
            }),
            final(self)@ == after_extend(old(self)@, offset@, additional),
            final(self).offsets() == old(self).offsets(),
    {
        let ghost before = *self;
        match self.find(offset) {
            None => Err(Error::UnknownOffset),
            Some(i) => {
                let expected = self.entries[i].expected_signals;
                if additional > u32::MAX - expected {
                    return Err(Error::TooManySignals);
                }
                let mut entry = self.entries.remove(i);
                entry.expected_signals = expected + additional;
                self.entries.insert(i, entry);
                proof {
                    before.lemma_replaced(*self, i as int);
                    assert(self.entries@[i as int].state() == before@[offset@].extended(additional));
                }
                Ok(())
            },
        }
    }

    /// The tracker `after` holds the entries of `self`, but for the one at
    /// place `i`, which kept its offset.
    proof fn lemma_replaced(&self, after: Self, i: int)
        requires
            self.wf(),
            0 <= i < self.entries@.len(),
            after.entries@.len() == self.entries@.len(),
            forall|j: int|
                0 <= j < self.entries@.len() && j != i ==> #[trigger] after.entries@[j]
                    == self.entries@[j],
            after.entries@[i].offset@ == self.entries@[i].offset@,
            after.entries@[i].received_signals < after.entries@[i].expected_signals,
        ensures
            after.wf(),
            after@ == self@.insert(self.entries@[i].offset@, after.entries@[i].state()),
            after.offsets() == self.offsets(),
    {
        assert forall|a: int, b: int| 0 <= a < b < after.entries@.len() implies (
        #[trigger] after.entries@[a]).offset@ != (#[trigger] after.entries@[b]).offset@ by {
            assert(self.entries@[a].offset@ != self.entries@[b].offset@);
        }
        assert forall|j: int| 0 <= j < after.entries@.len() implies (
        #[trigger] after.entries@[j]).received_signals < after.entries@[j].expected_signals by {
            if j != i {
                assert(self.entries@[j].received_signals < self.entries@[j].expected_signals);
            }
        }
        let target = self@.insert(self.entries@[i].offset@, after.entries@[i].state());
        assert forall|o: OffsetView| #[trigger] after@.contains_key(o) <==> target.contains_key(o) by {
            if after@.contains_key(o) {
                after.lemma_found(o);
                self.lemma_present(after.position(o).unwrap());
            }
            if self@.contains_key(o) {
                self.lemma_found(o);
                after.lemma_present(self.position(o).unwrap());
            }
            if o == self.entries@[i].offset@ {
                after.lemma_present(i);
            }
        }
        assert forall|o: OffsetView| #[trigger] after@.contains_key(o) implies after@[o] == target[o] by {
            after.lemma_found(o);
            let p = after.position(o).unwrap();
            self.lemma_present(p);
        }
        assert(after@ =~= target);
        assert(after.offsets() =~= self.offsets());
    }

    /// The tracker `after` holds the entries of `self` without the one at
    /// place `i`.
    proof fn lemma_removed(&self, after: Self, i: int)
        requires
            self.wf(),
            0 <= i < self.entries@.len(),
            after.entries@ == self.entries@.remove(i),
        ensures
            after.wf(),
            after@ == self@.remove(self.entries@[i].offset@),
            after.offsets() == self.offsets().remove(i),
    {
        let old_at = |j: int| if j < i { j } else { j + 1 };
        assert forall|j: int| 0 <= j < after.entries@.len() implies #[trigger] after.entries@[j]
            == self.entries@[old_at(j)] by {}
        assert forall|a: int, b: int| 0 <= a < b < after.entries@.len() implies (
        #[trigger] after.entries@[a]).offset@ != (#[trigger] after.entries@[b]).offset@ by {
            assert(self.entries@[old_at(a)].offset@ != self.entries@[old_at(b)].offset@);
        }
        assert forall|j: int| 0 <= j < after.entries@.len() implies (
        #[trigger] after.entries@[j]).received_signals < after.entries@[j].expected_signals by {
            assert(self.entries@[old_at(j)].received_signals < self.entries@[old_at(
                j,
            )].expected_signals);
        }
        let gone = self.entries@[i].offset@;
        let target = self@.remove(gone);
        assert forall|o: OffsetView| #[trigger] after@.contains_key(o) <==> target.contains_key(o) by {
            if after@.contains_key(o) {
                after.lemma_found(o);
                let p = after.position(o).unwrap();
                self.lemma_present(old_at(p));
                if o == gone {
                    self.lemma_present(i);
                }
            }
            if self@.contains_key(o) && o != gone {
                self.lemma_found(o);
                let p = self.position(o).unwrap();
                if p < i {
                    after.lemma_present(p);
                } else {
                    assert(after.entries@[p - 1] == self.entries@[old_at(p - 1)]);
                    after.lemma_present(p - 1);
                }
            }
        }
        assert forall|o: OffsetView| #[trigger] after@.contains_key(o) implies after@[o] == target[o] by {
            after.lemma_found(o);
            let p = after.position(o).unwrap();
            self.lemma_present(old_at(p));
        }
        assert(after@ =~= target);
        assert(after.offsets() =~= self.offsets().remove(i));
    }

    /// Counts one signal, an Ack or a Nak, for an offset. A Nak latches: the
    /// entry will leave as a Nak whatever follows. With the signal that
    /// completes the entry, the entry leaves the tracker and is handed back,
    /// acknowledged unless a Nak had arrived. A signal for an offset that is
    /// not in flight is ignored.
    pub fn signal(&mut self, offset: &Offset, outcome: ReadAck) -> (r: Option<TrackerEntry<C>>)
        requires
            old(self).wf(),
        ensures
            final(self).wf(),
            final(self)@ == after_signal(old(self)@, offset@, outcome),
            state_of(r) == completed_by(old(self)@, offset@, outcome),
            r matches Some(e) ==> e.offset@ == offset@,
    {
        let ghost before = *self;
        match self.find(offset) {
            None => None,
            Some(i) => {
                let mut entry = self.entries.remove(i);
                proof {
                    before.lemma_removed(*self, i as int);
                }
                entry.received_signals = entry.received_signals + 1;
                if let ReadAck::Nak = outcome {
                    entry.disposition = Disposition::Nak;
                }
                if entry.received_signals == entry.expected_signals {
                    if let Disposition::Pending = entry.disposition {
                        entry.disposition = Disposition::Ack;
                    }
                    // an entry in flight is never acknowledged before it leaves
                    Some(entry)
                } else {
                    let ghost without = *self;
                    self.entries.insert(i, entry);
                    proof {
                        assert(self.entries@.len() == before.entries@.len());
                        assert forall|j: int|
                            0 <= j < before.entries@.len() && j != i implies #[trigger] self.entries@[j]
                            == before.entries@[j] by {}
                        before.lemma_replaced(*self, i as int);
                    }
                    None
                }
            },
        }
    }

    /// Takes the entry of an offset out of the tracker as a Nak, whatever
    /// signals it had, and hands it back. Nothing happens where the offset is
    /// not in flight.
    pub fn discard(&mut self, offset: &Offset) -> (r: Option<TrackerEntry<C>>)
        requires
            old(self).wf(),
        ensures
            final(self).wf(),
            final(self)@ == old(self)@.remove(offset@),
            state_of(r) == (if old(self)@.contains_key(offset@) {
                Some(old(self)@[offset@].discarded())
            } else {
                None
            }),
            r matches Some(e) ==> e.offset@ == offset@,
    {
        let ghost before = *self;
        match self.find(offset) {
            None => {
                assert(self@ =~= before@.remove(offset@));
                None
            },
            Some(i) => {
                let mut entry = self.entries.remove(i);
                proof {
                    before.lemma_removed(*self, i as int);
                }
                entry.disposition = Disposition::Nak;
                Some(entry)
            },
        }
    }

    /// Takes every entry out of the tracker as a Nak, in the order in which
    /// the offsets were registered: what cancellation does to the entries that
    /// are still pending.
    pub fn cancel(&mut self) -> (r: Vec<TrackerEntry<C>>)
        requires
            old(self).wf(),
        ensures
            final(self).wf(),
            final(self)@ == Entries::<C>::empty(),
            final(self).offsets() == Seq::<OffsetView>::empty(),
            r@.len() == old(self).offsets().len(),
            forall|i: int|
                0 <= i < r@.len() ==> (#[trigger] r@[i]).offset@ == old(self).offsets()[i]
                    && r@[i].state() == old(self)@[old(self).offsets()[i]].discarded(),
    {
        let ghost before = *self;
        let mut entries: Vec<TrackerEntry<C>> = Vec::new();
        std::mem::swap(&mut self.entries, &mut entries);
        proof {
            assert(self@ =~= Entries::<C>::empty());
            assert(self.offsets() =~= Seq::<OffsetView>::empty());
        }
        let mut out: Vec<TrackerEntry<C>> = Vec::new();
        for entry in it: entries
            invariant
                before.wf(),
                it.seq() == before.entries@,
                out@.len() == it.index(),
                forall|i: int|
                    0 <= i < out@.len() ==> (#[trigger] out@[i]).offset@ == before.entries@[i].offset@
                        && out@[i].state() == before.entries@[i].state().discarded(),
        {
            let mut entry = entry;
            entry.disposition = Disposition::Nak;
            out.push(entry);
        }
        proof {
            assert forall|i: int| 0 <= i < out@.len() implies (#[trigger] out@[i]).offset@
                == before.offsets()[i] && out@[i].state() == before@[before.offsets()[i]].discarded() by {
                before.lemma_present(i);
            }
        }
        out
    }
}

} // verus!
