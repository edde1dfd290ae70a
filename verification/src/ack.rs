//! The acknowledgement of a batch: the ticket that gathers the outcomes of
//! the messages of one batch, and the rule by which a failed acknowledgement
//! is tried again.

use crate::backpressure::Permit;
use crate::message::{Offset, OffsetView, ReadAck};
use vstd::prelude::*;

verus! {

/// Milliseconds between two attempts to acknowledge a batch.
pub const ACK_RETRY_INTERVAL: u64 = 100;

/// Most attempts to acknowledge a batch: in effect unbounded.
pub const ACK_RETRY_ATTEMPTS: usize = usize::MAX;

/// How the promise of one message resolved.
#[derive(Debug, Clone, Copy, PartialEq, Eq, Structural)]
pub enum Resolution {
    /// Nothing was heard yet.
    Waiting,
    /// The message was acknowledged.
    Ack,
    /// The message was not acknowledged.
    Nak,
    /// The promise was dropped before it was fulfilled.
    Lost,
}

impl Resolution {
    /// What a promise came to: the outcome it was fulfilled with, or the
    /// loss of the promise.
    pub open spec fn of(outcome: Option<ReadAck>) -> Resolution {
        match outcome {
            Some(ReadAck::Ack) => Resolution::Ack,
            Some(ReadAck::Nak) => Resolution::Nak,
            None => Resolution::Lost,
        }
    }
}

/// The offsets of a sequence of offsets.
pub open spec fn views(offsets: Seq<Offset>) -> Seq<OffsetView> {
    offsets.map_values(|o: Offset| o@)
}

/// A copy of a list of offsets.
pub fn clone_offsets(offsets: &Vec<Offset>) -> (r: Vec<Offset>)
    ensures
        views(r@) == views(offsets@),
{
    let mut out: Vec<Offset> = Vec::new();
    let mut i: usize = 0;
    while i < offsets.len()
        invariant
            i <= offsets@.len(),
            views(out@) == views(offsets@.take(i as int)),
        decreases offsets@.len() - i,
    {
        let ghost out_before = out@;
        let o = offsets[i].clone();
        out.push(o);
        proof {
            assert(offsets@.take(i + 1) =~= offsets@.take(i as int).push(offsets@[i as int]));
            assert(views(out@) =~= views(out_before).push(o@));
            assert(views(out@) =~= views(offsets@.take(i + 1)));
        }
        i += 1;
    }
    assert(offsets@.take(i as int) =~= offsets@);
    out
}

/// The ticket of one batch. It lives with the task that acknowledges the
/// batch, and holds the offsets of the batch, how the promise of each has
/// resolved, and the offsets that are to be acknowledged, in the order in
/// which their promises resolved.
#[derive(Debug)]
pub struct BatchTicket {
    offsets: Vec<Offset>,
    resolutions: Vec<Resolution>,
    acks: Vec<Offset>,
    waiting: usize,
}

impl BatchTicket {
    /// The offsets of the batch, in the order in which they were read.
    pub closed spec fn offsets(&self) -> Seq<OffsetView> {
        views(self.offsets@)
    }

    /// How the promise of each offset has resolved.
    pub closed spec fn resolutions(&self) -> Seq<Resolution> {
        self.resolutions@
    }

    /// The offsets to acknowledge, in the order in which they resolved.
    pub closed spec fn acks(&self) -> Seq<OffsetView> {
        views(self.acks@)
    }

    /// Number of promises that have not resolved.
    pub closed spec fn waiting(&self) -> nat {
        self.waiting as nat
    }

    /// The places of the batch whose promise has not resolved.
    pub open spec fn waiting_places(&self) -> Set<int> {
        Set::new(
            |i: int| 0 <= i < self.resolutions().len() && self.resolutions()[i] == Resolution::Waiting,
        )
    }

    /// The places of the batch whose promise resolved as an Ack.
    pub open spec fn acked_places(&self) -> Set<int> {
        Set::new(
            |i: int| 0 <= i < self.resolutions().len() && self.resolutions()[i] == Resolution::Ack,
        )
    }

    /// Every offset has a resolution, the count of those that wait is right,
    /// and the offsets to acknowledge are those that resolved as an Ack, each
    /// once.
    pub closed spec fn wf(&self) -> bool {
        &&& self.offsets@.len() == self.resolutions@.len()
        &&& self.waiting_places().finite()
        &&& self.waiting_places().len() == self.waiting
        &&& self.acks@.len() <= self.offsets@.len()
        &&& exists|places: Seq<int>| self.acks_at(places)
    }

    /// `places` are the places of the batch from which the offsets to
    /// acknowledge were taken, in their order.
    pub closed spec fn acks_at(&self, places: Seq<int>) -> bool {
        &&& places.len() == self.acks@.len()
        &&& places.no_duplicates()
        &&& forall|k: int|
            0 <= k < places.len() ==> 0 <= #[trigger] places[k] < self.offsets@.len()
                && self.resolutions@[places[k]] == Resolution::Ack && self.acks@[k]@
                == self.offsets@[places[k]]@
        &&& forall|i: int|
            0 <= i < self.resolutions@.len() && #[trigger] self.resolutions@[i] == Resolution::Ack
                ==> places.contains(i)
    }

    /// What holds of every ticket. The offsets to acknowledge are those
    /// whose promise resolved as an Ack: each of them belongs to a place of the
    /// batch that resolved so, every such place has its offset among them,
    /// and where no offset occurs twice in the batch, none is acknowledged
    /// twice.
    pub proof fn lemma_acks(&self)
        requires
            self.wf(),
        ensures
            self.resolutions().len() == self.offsets().len(),
            self.acks().len() <= self.offsets().len(),
            forall|k: int|
                0 <= k < self.acks().len() ==> exists|i: int|
                    0 <= i < self.offsets().len() && self.resolutions()[i] == Resolution::Ack
                        && #[trigger] self.offsets()[i] == #[trigger] self.acks()[k],
            forall|i: int|
                0 <= i < self.offsets().len() && #[trigger] self.resolutions()[i] == Resolution::Ack
                    ==> self.acks().contains(self.offsets()[i]),
            self.offsets().no_duplicates() ==> self.acks().no_duplicates(),
    {
        let places = choose|places: Seq<int>| self.acks_at(places);
        assert forall|k: int| 0 <= k < self.acks().len() implies exists|i: int|
            0 <= i < self.offsets().len() && self.resolutions()[i] == Resolution::Ack
                && #[trigger] self.offsets()[i] == #[trigger] self.acks()[k] by {
            assert(self.offsets()[places[k]] == self.acks()[k]);
        }
        assert forall|i: int|
            0 <= i < self.offsets().len() && #[trigger] self.resolutions()[i]
                == Resolution::Ack implies self.acks().contains(self.offsets()[i]) by {
            assert(places.contains(i));
            let k = choose|k: int| 0 <= k < places.len() && places[k] == i;
            assert(self.acks()[k] == self.offsets()[i]);
        }
        if self.offsets().no_duplicates() {
            assert forall|a: int, b: int|
                0 <= a < self.acks().len() && 0 <= b < self.acks().len() && a
                    != b implies self.acks()[a] != self.acks()[b] by {
                assert(places[a] != places[b]);
                assert(self.offsets()[places[a]] == self.acks()[a]);
                assert(self.offsets()[places[b]] == self.acks()[b]);
            }
        }
    }

    /// A ticket for a batch with the given offsets: every promise waits.
    pub fn new(offsets: Vec<Offset>) -> (r: Self)
        ensures
            r.wf(),
            r.offsets() == views(offsets@),
            r.resolutions() == Seq::new(offsets@.len(), |i: int| Resolution::Waiting),
            r.acks() == Seq::<OffsetView>::empty(),
            r.waiting() == offsets@.len(),
    {
        let n = offsets.len();
        let mut resolutions: Vec<Resolution> = Vec::new();
        let mut i: usize = 0;
        while i < n
            invariant
                i <= n,
                resolutions@ == Seq::new(i as nat, |j: int| Resolution::Waiting),
            decreases n - i,
        {
            resolutions.push(Resolution::Waiting);
            assert(resolutions@ =~= Seq::new((i + 1) as nat, |j: int| Resolution::Waiting));
            i += 1;
        }
        let r = BatchTicket { offsets, resolutions, acks: Vec::new(), waiting: n };
        proof {
            assert(r.acks() =~= Seq::<OffsetView>::empty());
            assert(r.waiting_places() =~= Set::new(|i: int| 0 <= i < n));
            vstd::set_lib::lemma_int_range(0, n as int);
            assert(Set::new(|i: int| 0 <= i < n) =~= vstd::set_lib::set_int_range(0, n as int));
            assert(r.acks_at(Seq::<int>::empty()));
        }
        r
    }

    /// Number of messages in the batch.
    pub fn len(&self) -> (r: usize)
        ensures
            r == self.offsets().len(),
    {
        self.offsets.len()
    }

    /// Whether every promise of the batch has resolved.
    pub fn is_complete(&self) -> (r: bool)
        requires
            self.wf(),
        ensures
            r == (self.waiting() == 0),
            r == (forall|i: int|
                0 <= i < self.resolutions().len() ==> self.resolutions()[i] != Resolution::Waiting),
    {
        proof {
            if self.waiting == 0 {
                assert forall|i: int| 0 <= i < self.resolutions().len() implies self.resolutions()[i]
                    != Resolution::Waiting by {
                    if self.resolutions()[i] == Resolution::Waiting {
                        assert(self.waiting_places().contains(i));
                    }
                }
            } else {
                let i = self.waiting_places().choose();
                assert(self.waiting_places().contains(i));
            }
        }
        self.waiting == 0
    }

    /// Records how the promise at place `index` of the batch resolved: with
    /// an outcome, or not at all where the promise was dropped. An offset that
    /// resolved as an Ack joins the offsets to acknowledge, behind those that
    /// resolved before it. A place outside the batch, or one that has
    /// resolved already, changes nothing.
    pub fn resolve(&mut self, index: usize, outcome: Option<ReadAck>) -> (r: bool)
        requires
            old(self).wf(),
        ensures
            final(self).wf(),
            final(self).offsets() == old(self).offsets(),
            r == (index < old(self).resolutions().len() && old(self).resolutions()[index as int]
                == Resolution::Waiting),
            r ==> final(self).resolutions() == old(self).resolutions().update(
                index as int,
                Resolution::of(outcome),
            ) && final(self).waiting() == old(self).waiting() - 1,
            !r ==> final(self).resolutions() == old(self).resolutions() && final(self).waiting()
                == old(self).waiting(),
            final(self).acks() == (if r && outcome == Some(ReadAck::Ack) {
                old(self).acks().push(old(self).offsets()[index as int])
            } else {
                old(self).acks()
            }),
    {
        if index >= self.resolutions.len() {
            return false;
        }
        if let Resolution::Waiting = self.resolutions[index] {
        } else {
            return false;
        }
        let ghost before = *self;
        let ghost places = choose|places: Seq<int>| before.acks_at(places);
        let resolution = match outcome {
            Some(ReadAck::Ack) => Resolution::Ack,
            Some(ReadAck::Nak) => Resolution::Nak,
            None => Resolution::Lost,
        };
        self.resolutions.set(index, resolution);
        proof {
            assert(before.waiting_places().contains(index as int));
            assert(self.waiting_places() =~= before.waiting_places().remove(index as int));
        }
        self.waiting = self.waiting - 1;
        if let Some(ReadAck::Ack) = outcome {
            proof {
                // a place holds at most one of the offsets to acknowledge
                assert(!places.contains(index as int)) by {
                    if places.contains(index as int) {
                        let k = choose|k: int| 0 <= k < places.len() && places[k] == index as int;
                        assert(before.resolutions@[places[k]] == Resolution::Ack);
                    }
                }
                lemma_fewer_places(places, index as int, before.offsets@.len() as int);
            }
            self.acks.push(self.offsets[index].clone());
            proof {
                let next = places.push(index as int);
                assert forall|k: int| 0 <= k < next.len() implies 0 <= #[trigger] next[k]
                    < self.offsets@.len() && self.resolutions@[next[k]] == Resolution::Ack
                    && self.acks@[k]@ == self.offsets@[next[k]]@ by {
                    if k < places.len() {
                        assert(next[k] == places[k]);
                        assert(before.acks@[k]@ == before.offsets@[places[k]]@);
                    }
                }
                assert forall|i: int|
                    0 <= i < self.resolutions@.len() && #[trigger] self.resolutions@[i]
                        == Resolution::Ack implies next.contains(i) by {
                    if i == index as int {
                        assert(next[places.len() as int] == i);
                    } else {
                        assert(before.resolutions@[i] == Resolution::Ack);
                        let k = choose|k: int| 0 <= k < places.len() && places[k] == i;
                        assert(next[k] == i);
                    }
                }
                assert(self.acks_at(next));
                assert(self.acks() =~= before.acks().push(before.offsets()[index as int]));
            }
        } else {
            proof {
                assert forall|k: int| 0 <= k < places.len() implies 0 <= #[trigger] places[k]
                    < self.offsets@.len() && self.resolutions@[places[k]] == Resolution::Ack
                    && self.acks@[k]@ == self.offsets@[places[k]]@ by {
                    assert(before.resolutions@[places[k]] == Resolution::Ack);
                }
                assert forall|i: int|
                    0 <= i < self.resolutions@.len() && #[trigger] self.resolutions@[i]
                        == Resolution::Ack implies places.contains(i) by {
                    assert(before.resolutions@[i] == Resolution::Ack);
                }
                assert(self.acks_at(places));
            }
        }
        true
    }

    /// The offsets to acknowledge at the source: those whose promise resolved
    /// as an Ack, in the order in which they resolved.
    pub fn into_acks(self) -> (r: Vec<Offset>)
        ensures
            views(r@) == self.acks(),
    {
        self.acks
    }
}

/// Distinct places below `n`, none of them `i`, are fewer than `n`.
proof fn lemma_fewer_places(places: Seq<int>, i: int, n: int)
    requires
        places.no_duplicates(),
        0 <= i < n,
        !places.contains(i),
        forall|k: int| 0 <= k < places.len() ==> 0 <= #[trigger] places[k] < n,
    ensures
        places.len() < n,
        places.push(i).no_duplicates(),
{
    let all = places.push(i);
    assert forall|a: int, b: int| 0 <= a < all.len() && 0 <= b < all.len() && a != b implies all[a]
        != all[b] by {
        if a < places.len() {
            assert(places.contains(places[a]));
        }
        if b < places.len() {
            assert(places.contains(places[b]));
        }
    }
    all.unique_seq_to_set();
    vstd::set_lib::lemma_int_range(0, n);
    assert(all.to_set().subset_of(vstd::set_lib::set_int_range(0, n))) by {
        assert forall|x: int| all.to_set().contains(x) implies vstd::set_lib::set_int_range(
            0,
            n,
        ).contains(x) by {
            let k = choose|k: int| 0 <= k < all.len() && all[k] == x;
            if k < places.len() {
                assert(all[k] == places[k]);
            }
        }
    }
    vstd::set_lib::lemma_len_subset(all.to_set(), vstd::set_lib::set_int_range(0, n));
}

/// What to do after an attempt to acknowledge a batch.
#[derive(Debug, Clone, Copy, PartialEq, Eq, Structural)]
pub enum AckStep {
    /// The acknowledgement has ended: it went through, or it was given up.
    Stop,
    /// Try again after this many milliseconds.
    RetryAfter(u64),
}

/// What to do after an attempt to acknowledge a batch: stop where the attempt
/// went through, where cancellation has fired, or where the attempts are used
/// up; else try again after the fixed interval.
pub open spec fn spec_next_ack_step(failed: bool, cancelled: bool, attempts: usize) -> AckStep {
    if failed && !cancelled && attempts < ACK_RETRY_ATTEMPTS {
        AckStep::RetryAfter(ACK_RETRY_INTERVAL)
    } else {
        AckStep::Stop
    }
}

/// What to do after the `attempts`-th attempt to acknowledge a batch, given
/// whether it failed and whether cancellation has fired.
pub fn next_ack_step(failed: bool, cancelled: bool, attempts: usize) -> (r: AckStep)
    ensures
        r == spec_next_ack_step(failed, cancelled, attempts),
{
    if failed && !cancelled && attempts < ACK_RETRY_ATTEMPTS {
        AckStep::RetryAfter(ACK_RETRY_INTERVAL)
    } else {
        AckStep::Stop
    }
}

/// Where the acknowledgement of a batch stands.
#[derive(Debug, Clone, Copy, PartialEq, Eq, Structural)]
pub enum AckPhase {
    /// Promises of the batch have not resolved yet.
    Collecting,
    /// An attempt to acknowledge the batch at the source is under way.
    Acking,
    /// The last attempt failed, and the next one waits for its time.
    Waiting,
    /// The acknowledgement has ended, and the permit of the batch is free.
    Finished,
}

/// What happened to the acknowledgement of a batch.
#[derive(Debug, Clone, Copy, PartialEq, Eq, Structural)]
pub enum AckEvent {
    /// The promise at place `index` of the batch resolved: with an outcome,
    /// or not at all where it was dropped.
    Resolved { index: usize, outcome: Option<ReadAck> },
    /// An attempt to acknowledge returned. `cancelled` tells whether the
    /// cancellation token has fired.
    Attempted { failed: bool, cancelled: bool },
    /// The time until the next attempt has passed.
    Waited,
}

/// What the acknowledgement of a batch asks for.
#[derive(Debug)]
pub enum AckAction {
    /// Wait for the next promise to resolve.
    Await,
    /// Acknowledge these offsets at the source.
    Ack(Vec<Offset>),
    /// Wait this many milliseconds.
    Sleep(u64),
    /// Give this permit, the one of the batch, back: the acknowledgement has
    /// ended.
    Release(Permit),
    /// Nothing: the acknowledgement was not waiting for this.
    Ignore,
}

/// The acknowledgement of one batch: it waits until every promise of the
/// batch has resolved, acknowledges at the source the offsets that resolved as
/// an Ack, tries again while that fails, and then gives the permit of the batch
/// back.
#[derive(Debug)]
pub struct AckTask {
    ticket: BatchTicket,
    permit: Option<Permit>,
    phase: AckPhase,
    attempts: usize,
}

impl AckTask {
    /// The ticket of the batch.
    pub closed spec fn ticket(&self) -> BatchTicket {
        self.ticket
    }

    /// The permit of the batch, until it is given back.
    pub closed spec fn permit(&self) -> Option<Permit> {
        self.permit
    }

    /// Where the acknowledgement stands.
    pub closed spec fn phase(&self) -> AckPhase {
        self.phase
    }

    /// Number of attempts to acknowledge that were made.
    pub closed spec fn attempts(&self) -> usize {
        self.attempts
    }

    /// The ticket is in order; while promises are collected none of the
    /// attempts was made, and from then on every promise has resolved.
    pub open spec fn wf(&self) -> bool {
        &&& self.ticket().wf()
        &&& self.phase() == AckPhase::Collecting ==> self.attempts() == 0 && self.ticket().waiting() > 0
        &&& self.phase() != AckPhase::Collecting ==> self.ticket().waiting() == 0
        &&& (self.phase() == AckPhase::Acking || self.phase() == AckPhase::Waiting)
            ==> self.ticket().acks().len() > 0
        &&& self.phase() == AckPhase::Acking ==> self.attempts() > 0
        &&& self.phase() == AckPhase::Waiting ==> self.attempts() < ACK_RETRY_ATTEMPTS
        &&& self.phase() != AckPhase::Finished ==> self.permit() is Some
    }

    /// The acknowledgement ends: the permit of the batch is given back.
    pub open spec fn finishes(pre: Self, post: Self, action: AckAction) -> bool {
        &&& post.phase() == AckPhase::Finished
        &&& post.permit() is None
        &&& action matches AckAction::Release(permit)
        &&& Some(permit) == pre.permit()
    }

    /// What the acknowledgement does once every promise has resolved: it
    /// acknowledges the offsets that resolved as an Ack, or ends at once where
    /// there is none.
    pub open spec fn settles(pre: Self, post: Self, action: AckAction) -> bool {
        if post.ticket().acks().len() > 0 {
            &&& post.phase() == AckPhase::Acking
            &&& post.permit() == pre.permit()
            &&& post.attempts() == 1
            &&& action matches AckAction::Ack(offsets)
            &&& views(offsets@) == post.ticket().acks()
        } else {
            Self::finishes(pre, post, action)
        }
    }

    /// What a step of the acknowledgement does.
    pub open spec fn stepped(pre: Self, event: AckEvent, post: Self, action: AckAction) -> bool {
        match (pre.phase(), event) {
            (AckPhase::Collecting, AckEvent::Resolved { index, outcome }) => {
                let counted = index < pre.ticket().resolutions().len()
                    && pre.ticket().resolutions()[index as int] == Resolution::Waiting;
                &&& post.ticket().offsets() == pre.ticket().offsets()
                &&& post.ticket().resolutions() == (if counted {
                    pre.ticket().resolutions().update(index as int, Resolution::of(outcome))
                } else {
                    pre.ticket().resolutions()
                })
                &&& post.ticket().acks() == (if counted && outcome == Some(ReadAck::Ack) {
                    pre.ticket().acks().push(pre.ticket().offsets()[index as int])
                } else {
                    pre.ticket().acks()
                })
                &&& if counted && pre.ticket().waiting() == 1 {
                    Self::settles(pre, post, action)
                } else {
                    post.phase() == AckPhase::Collecting && post.permit() == pre.permit()
                        && action is Await
                }
            },
            (AckPhase::Acking, AckEvent::Attempted { failed, cancelled }) => {
                &&& post.ticket() == pre.ticket()
                &&& post.attempts() == pre.attempts()
                &&& match spec_next_ack_step(failed, cancelled, pre.attempts()) {
                    AckStep::Stop => Self::finishes(pre, post, action),
                    AckStep::RetryAfter(millis) => post.phase() == AckPhase::Waiting
                        && post.permit() == pre.permit() && action == AckAction::Sleep(millis),
                }
            },
            (AckPhase::Waiting, AckEvent::Waited) => {
                &&& post.ticket() == pre.ticket()
                &&& post.permit() == pre.permit()
                &&& post.phase() == AckPhase::Acking
                &&& post.attempts() == pre.attempts() + 1
                &&& action matches AckAction::Ack(offsets)
                &&& views(offsets@) == pre.ticket().acks()
            },
            _ => {
                &&& post.ticket() == pre.ticket()
                &&& post.permit() == pre.permit()
                &&& post.phase() == pre.phase()
                &&& post.attempts() == pre.attempts()
                &&& action is Ignore
            },
        }
    }

    /// Starts the acknowledgement of the batch of a ticket on which no
    /// promise has resolved. The acknowledgement of a batch without messages
    /// ends at once.
    pub fn start(ticket: BatchTicket, permit: Permit) -> (r: (Self, AckAction))
        requires
            ticket.wf(),
            ticket.acks().len() == 0,
        ensures
            r.0.wf(),
            r.0.ticket() == ticket,
            r.0.attempts() == 0,
            if ticket.waiting() == 0 {
                &&& r.0.phase() == AckPhase::Finished
                &&& r.0.permit() is None
                &&& r.1 == AckAction::Release(permit)
            } else {
                &&& r.0.phase() == AckPhase::Collecting
                &&& r.0.permit() == Some(permit)
                &&& r.1 is Await
            },
    {
        if ticket.is_complete() {
            (
                AckTask { ticket, permit: None, phase: AckPhase::Finished, attempts: 0 },
                AckAction::Release(permit),
            )
        } else {
            (
                AckTask { ticket, permit: Some(permit), phase: AckPhase::Collecting, attempts: 0 },
                AckAction::Await,
            )
        }
    }

    fn finish(&mut self) -> (action: AckAction)
        requires
            old(self).permit() is Some,
            old(self).ticket().wf(),
            old(self).ticket().waiting() == 0,
        ensures
            final(self).wf(),
            final(self).ticket() == old(self).ticket(),
            final(self).attempts() == old(self).attempts(),
            Self::finishes(*old(self), *final(self), action),
    {
        self.phase = AckPhase::Finished;
        let mut permit: Option<Permit> = None;
        std::mem::swap(&mut self.permit, &mut permit);
        match permit {
            Some(p) => AckAction::Release(p),
            None => AckAction::Ignore,
        }
    }

    /// Whether the acknowledgement has ended.
    pub fn is_finished(&self) -> (r: bool)
        ensures
            r == (self.phase() == AckPhase::Finished),
    {
        match self.phase {
            AckPhase::Finished => true,
            _ => false,
        }
    }

    /// Number of messages in the batch.
    pub fn batch_len(&self) -> (r: usize)
        ensures
            r == self.ticket().offsets().len(),
    {
        self.ticket.len()
    }

    /// Takes the acknowledgement one step on.
    pub fn step(&mut self, event: AckEvent) -> (action: AckAction)
        requires
            old(self).wf(),
        ensures
            final(self).wf(),
            Self::stepped(*old(self), event, *final(self), action),
    {
        match (self.phase, event) {
            (AckPhase::Collecting, AckEvent::Resolved { index, outcome }) => {
                let counted = self.ticket.resolve(index, outcome);
                if counted && self.ticket.is_complete() {
                    if self.ticket.acks.len() > 0 {
                        self.phase = AckPhase::Acking;
                        self.attempts = 1;
                        AckAction::Ack(clone_offsets(&self.ticket.acks))
                    } else {
                        self.finish()
                    }
                } else {
                    AckAction::Await
                }
            },
            (AckPhase::Acking, AckEvent::Attempted { failed, cancelled }) => {
                match next_ack_step(failed, cancelled, self.attempts) {
                    AckStep::Stop => self.finish(),
                    AckStep::RetryAfter(millis) => {
                        self.phase = AckPhase::Waiting;
                        AckAction::Sleep(millis)
                    },
                }
            },
            (AckPhase::Waiting, AckEvent::Waited) => {
                self.phase = AckPhase::Acking;
                // the attempts stay below their bound while another one is due
                if self.attempts < usize::MAX {
                    self.attempts = self.attempts + 1;
                }
                AckAction::Ack(clone_offsets(&self.ticket.acks))
            },
            _ => AckAction::Ignore,
        }
    }
}

} // verus!
