//! The source forwarder: the loop that reads a batch from the source, tracks
//! it, transforms it, stamps watermarks, hands it on to be written and
//! schedules its acknowledgement.
//!
//! The forwarder is a state machine. Whoever runs it performs the action that
//! a step asks for (a read, a call of the transformer, a write, a wait) and
//! hands back what came of it as the next event. The forwarder itself never
//! waits and never fails: every event gets an answer.

use crate::ack::{clone_offsets, views, BatchTicket};
use crate::backpressure::{first_free, with_freed, with_load, with_taken, Permit, ReadAheadGate};
use crate::batch::{
    account_fan_out, acknowledge_all, acknowledged, discard_all, discarded, dropped_offsets,
    fanned, first_clash, first_overflow, kept, leavers, left_by_acks, left_by_discard,
    messages_of, offsets_of, registered, split_dropped, stamp_late, stamped, track_batch,
    Arrival,
};
use crate::error::Error;
use crate::message::{Message, Offset, OffsetView};
use crate::tracker::{Entries, Tracker, TrackerEntry};
use crate::watermark::{advanced_by_batch, advanced_by_idling, PartitionMark, SourceWatermark};
use vstd::prelude::*;

verus! {

/// Where the forwarder stands.
#[derive(Debug, Clone, Copy, PartialEq, Eq, Structural)]
pub enum Phase {
    /// Between two batches: about to look at the cancellation token.
    Idle,
    /// A read of the source is under way.
    Reading,
    /// A read came back empty and the partitions of the source were asked for.
    Idling,
    /// Idle watermarks are being published.
    IdlePublishing,
    /// The transformer works on the batch.
    Transforming,
    /// The watermarks of the batch are being published.
    Watermarking,
    /// The batch is being handed on to the writer.
    Publishing,
    /// The loop has ended and waits for the batches in flight.
    Draining,
    /// The forwarder has returned.
    Stopped,
}

/// What happened since the last step.
#[derive(Debug)]
pub enum Event<C> {
    /// The forwarder is to go on. `cancelled` tells whether the cancellation
    /// token has fired.
    Wake { cancelled: bool },
    /// The read of the source returned: the messages, each with the promise
    /// made for it, or the failure.
    Read(Result<Vec<Arrival<C>>, Error>),
    /// The partitions that the source owns.
    Partitions(Vec<u16>),
    /// The transformer returned.
    Transformed(Result<Vec<Message>, Error>),
    /// The action that was asked for has been carried out.
    Done,
}

/// What the forwarder asks for.
#[derive(Debug)]
pub enum Action {
    /// Look at the cancellation token and wake the forwarder.
    Resume,
    /// Wait until a permit is given back, then look at the
    /// cancellation token and wake the forwarder.
    AwaitPermit,
    /// Read a batch from the source.
    Read,
    /// Ask the source for the partitions that it owns.
    FetchPartitions,
    /// Publish these watermarks to the watermark store.
    Publish(Vec<PartitionMark>),
    /// Hand these messages to the transformer.
    Transform(Vec<Message>),
    /// Hand these messages to the writer, in this order.
    Write(Vec<Message>),
    /// Return from the forwarder with this result.
    Return(Result<(), Error>),
}

/// A batch whose acknowledgement is to be started: its ticket, and the
/// permit under which it was read.
#[derive(Debug)]
pub struct Scheduled {
    pub ticket: BatchTicket,
    pub permit: Permit,
}

/// The answer of the forwarder to an event.
#[derive(Debug)]
pub struct Step<C> {
    /// What to do next.
    pub action: Action,
    /// The batch that was just booked: its acknowledgement is to be started
    /// before anything else.
    pub ticket: Option<Scheduled>,
    /// Entries that left the tracker in this step: the promise of each is to
    /// be fulfilled with the outcome of the entry.
    pub completions: Vec<TrackerEntry<C>>,
}

/// The source forwarder.
#[derive(Debug)]
pub struct SourceForwarder {
    phase: Phase,
    permit: Option<Permit>,
    has_transformer: bool,
    watermark: Option<SourceWatermark>,
    batch: Vec<Offset>,
    staged: Vec<Message>,
    failure: Option<Error>,
}

impl SourceForwarder {
    /// Where the forwarder stands.
    pub closed spec fn phase(&self) -> Phase {
        self.phase
    }

    /// The permit under which a batch is being read.
    pub closed spec fn permit(&self) -> Option<Permit> {
        self.permit
    }

    /// Whether batches go through a transformer.
    pub closed spec fn has_transformer(&self) -> bool {
        self.has_transformer
    }

    /// The watermark generator, where watermarks are generated.
    pub closed spec fn watermark(&self) -> Option<SourceWatermark> {
        self.watermark
    }

    /// The offsets of the batch that is with the transformer.
    pub closed spec fn batch(&self) -> Seq<OffsetView> {
        views(self.batch@)
    }

    /// The messages that wait for their watermarks to be published.
    pub closed spec fn staged(&self) -> Seq<Message> {
        self.staged@
    }

    /// The failure with which the forwarder will return.
    pub closed spec fn failure(&self) -> Option<Error> {
        self.failure
    }

    /// The generator is in order, and is there where the forwarder is about
    /// watermarks. The forwarder holds a permit exactly while it reads, the
    /// offsets of a batch only while the batch is with the transformer,
    /// messages only while their watermarks are published, and a failure only
    /// while it waits to return.
    pub open spec fn wf(&self) -> bool {
        &&& self.watermark() matches Some(w) ==> w.wf()
        &&& (self.phase() == Phase::Idling || self.phase() == Phase::IdlePublishing || self.phase()
            == Phase::Watermarking) ==> self.watermark() is Some
        &&& self.phase() == Phase::Reading <==> self.permit() is Some
        &&& self.phase() != Phase::Transforming ==> self.batch() == Seq::<OffsetView>::empty()
        &&& self.phase() != Phase::Watermarking ==> self.staged() == Seq::<Message>::empty()
        &&& self.phase() != Phase::Draining ==> self.failure() is None
    }

    /// The generator is in order.
    pub open spec fn generator_ok(&self) -> bool {
        self.watermark() matches Some(w) ==> w.wf()
    }

    /// The forwarder ends: it returns at once where no batch is in flight,
    /// and waits for the batches in flight where there are some.
    pub open spec fn ends<C>(
        post: Self,
        gate: ReadAheadGate,
        failure: Option<Error>,
        step: Step<C>,
    ) -> bool {
        if gate.in_flight() == 0 {
            &&& post.phase() == Phase::Stopped
            &&& post.failure() is None
            &&& match failure {
                Some(e) => step.action == Action::Return(Err(e)),
                None => step.action == Action::Return(Ok(())),
            }
        } else {
            &&& post.phase() == Phase::Draining
            &&& post.failure() == failure
            &&& step.action is AwaitPermit
        }
    }

    /// The forwarder refuses an event that it was not waiting for, and
    /// stops.
    pub open spec fn refuses<C>(post: Self, step: Step<C>) -> bool {
        &&& post.phase() == Phase::Stopped
        &&& step.action == Action::Return(Err(Error::Protocol))
    }

    /// The messages of a batch are handed on: those that are marked for
    /// discard are acknowledged at once and not written, the others go to the
    /// writer in their order.
    pub open spec fn hands_on<C>(
        messages: Seq<Message>,
        tracker_pre: Entries<C>,
        post: Self,
        tracker_post: Entries<C>,
        step: Step<C>,
    ) -> bool {
        let dropped = dropped_offsets(messages);
        &&& post.phase() == Phase::Publishing
        &&& post.staged() == Seq::<Message>::empty()
        &&& step.action matches Action::Write(written)
        &&& written@ == kept(messages)
        &&& tracker_post == acknowledged(tracker_pre, dropped, dropped.len() as int)
        &&& leavers(step.completions@) == left_by_acks(tracker_pre, dropped, dropped.len() as int)
    }

    /// The messages of a batch get their watermarks. With a generator, the
    /// watermarks move forward with the batch, every message is marked late
    /// or not against the watermark of the source, and the watermarks are
    /// given out to be published. Without one, the messages are handed on as
    /// they are.
    pub open spec fn stamps<C>(
        generator: Option<SourceWatermark>,
        messages: Seq<Message>,
        tracker_pre: Entries<C>,
        post: Self,
        tracker_post: Entries<C>,
        step: Step<C>,
    ) -> bool {
        match generator {
            Some(w) => {
                &&& post.phase() == Phase::Watermarking
                &&& post.watermark() matches Some(moved)
                &&& step.action matches Action::Publish(publications)
                &&& advanced_by_batch(w, messages, moved, publications@)
                &&& post.staged() == messages.map_values(
                    |m: Message| stamped(m, moved.source_watermark()),
                )
                &&& tracker_post == tracker_pre
                &&& step.completions@.len() == 0
            },
            None => {
                &&& post.watermark() is None
                &&& Self::hands_on(messages, tracker_pre, post, tracker_post, step)
            },
        }
    }

    /// The batch in hand is given up after a failure: its entries are
    /// discarded, and the forwarder ends with the failure.
    pub open spec fn gives_up<C>(
        pre: Self,
        tracker_pre: Entries<C>,
        gate: ReadAheadGate,
        failure: Error,
        post: Self,
        tracker_post: Entries<C>,
        step: Step<C>,
    ) -> bool {
        &&& tracker_post == discarded(tracker_pre, pre.batch(), pre.batch().len() as int)
        &&& leavers(step.completions@) == left_by_discard(
            tracker_pre,
            pre.batch(),
            pre.batch().len() as int,
        )
        &&& post.watermark() == pre.watermark()
        &&& Self::ends(post, gate, Some(failure), step)
    }

    /// What a wake-up does. Between two batches, the forwarder ends where
    /// cancellation has fired; else it takes a permit and reads, or waits for
    /// a permit where none is free. While draining, it ends as soon as no
    /// batch is in flight.
    pub open spec fn woken<C>(
        pre: Self,
        gate_pre: ReadAheadGate,
        cancelled: bool,
        post: Self,
        gate_post: ReadAheadGate,
        step: Step<C>,
    ) -> bool {
        if pre.phase() == Phase::Draining || (pre.phase() == Phase::Idle && cancelled) {
            &&& gate_post.slots() == gate_pre.slots()
            &&& Self::ends(post, gate_pre, pre.failure(), step)
        } else if pre.phase() == Phase::Idle {
            if gate_pre.in_flight() < gate_pre.capacity() {
                &&& post.permit() matches Some(permit)
                &&& permit.slot() == first_free(gate_pre.slots())
                &&& gate_post.slots() == with_taken(gate_pre.slots(), permit.slot())
                &&& post.phase() == Phase::Reading
                &&& step.action is Read
            } else {
                &&& gate_post.slots() == gate_pre.slots()
                &&& post.phase() == Phase::Idle
                &&& step.action is AwaitPermit
            }
        } else {
            &&& gate_post.slots() == gate_pre.slots()
            &&& Self::refuses(post, step)
        }
    }

    /// What the end of a read does. A failed read ends the forwarder. An
    /// empty batch gives its permit back and leads to idle watermarks, where
    /// watermarks are generated. The messages of any other batch are
    /// registered with the tracker; a message whose offset is already in
    /// flight stops the forwarder at once. A batch that was registered gets
    /// its ticket, and goes to the transformer, or on to its watermarks where
    /// there is no transformer.
    pub open spec fn read<C>(
        pre: Self,
        tracker_pre: Entries<C>,
        gate_pre: ReadAheadGate,
        result: Result<Vec<Arrival<C>>, Error>,
        post: Self,
        tracker_post: Entries<C>,
        gate_post: ReadAheadGate,
        step: Step<C>,
    ) -> bool {
        match result {
            Err(e) => {
                &&& pre.permit() matches Some(permit)
                &&& gate_post.slots() == with_freed(gate_pre.slots(), permit.slot())
                &&& tracker_post == tracker_pre
                &&& step.ticket is None
                &&& step.completions@.len() == 0
                &&& post.watermark() == pre.watermark()
                &&& Self::ends(post, gate_post, Some(e), step)
            },
            Ok(batch) => {
                if batch@.len() == 0 {
                    &&& pre.permit() matches Some(permit)
                    &&& gate_post.slots() == with_freed(gate_pre.slots(), permit.slot())
                    &&& tracker_post == tracker_pre
                    &&& step.ticket is None
                    &&& step.completions@.len() == 0
                    &&& post.watermark() == pre.watermark()
                    &&& if pre.watermark() is Some {
                        post.phase() == Phase::Idling && step.action is FetchPartitions
                    } else {
                        post.phase() == Phase::Idle && step.action is Resume
                    }
                } else if first_clash(tracker_pre, batch@, 0) < batch@.len() {
                    &&& gate_post.slots() == gate_pre.slots()
                    &&& tracker_post == registered(
                        tracker_pre,
                        batch@,
                        first_clash(tracker_pre, batch@, 0),
                    )
                    &&& step.ticket is None
                    &&& step.completions@.len() == 0
                    &&& post.watermark() == pre.watermark()
                    &&& post.phase() == Phase::Stopped
                    &&& step.action == Action::Return(Err(Error::DuplicateOffset))
                } else {
                    let messages = messages_of(batch@);
                    let booked = registered(tracker_pre, batch@, batch@.len() as int);
                    &&& pre.permit() matches Some(permit)
                    &&& gate_post.slots() == with_load(
                        gate_pre.slots(),
                        permit.slot(),
                        batch@.len() as usize,
                    )
                    &&& step.ticket matches Some(scheduled)
                    &&& scheduled.permit == permit
                    &&& scheduled.ticket.wf()
                    &&& scheduled.ticket.offsets() == offsets_of(messages)
                    &&& scheduled.ticket.waiting() == messages.len()
                    &&& scheduled.ticket.acks() == Seq::<OffsetView>::empty()
                    &&& if pre.has_transformer() {
                        &&& post.phase() == Phase::Transforming
                        &&& post.batch() == offsets_of(messages)
                        &&& post.watermark() == pre.watermark()
                        &&& step.action matches Action::Transform(given)
                        &&& given@ == messages
                        &&& tracker_post == booked
                        &&& step.completions@.len() == 0
                    } else {
                        Self::stamps(pre.watermark(), messages, booked, post, tracker_post, step)
                    }
                }
            },
        }
    }

    /// What the return of the transformer does. A failure gives the batch
    /// up. Else the tracker is told of every output beyond the first that
    /// carries the offset of one input; a fan-out beyond what can be counted
    /// gives the batch up. Then the outputs go on to their watermarks.
    pub open spec fn transformed<C>(
        pre: Self,
        tracker_pre: Entries<C>,
        gate: ReadAheadGate,
        result: Result<Vec<Message>, Error>,
        post: Self,
        tracker_post: Entries<C>,
        step: Step<C>,
    ) -> bool {
        match result {
            Err(e) => Self::gives_up(pre, tracker_pre, gate, e, post, tracker_post, step),
            Ok(outputs) => {
                let stop = first_overflow(tracker_pre, outputs@, 0);
                let counted = fanned(tracker_pre, outputs@, stop);
                if stop < outputs@.len() {
                    Self::gives_up(
                        pre,
                        counted,
                        gate,
                        Error::TooManySignals,
                        post,
                        tracker_post,
                        step,
                    )
                } else {
                    Self::stamps(pre.watermark(), outputs@, counted, post, tracker_post, step)
                }
            },
        }
    }

    /// What the answer to the request for the partitions does: the watermark
    /// of each of them advances by the idle step, and the watermarks are given
    /// out to be published.
    pub open spec fn idled<C>(pre: Self, partitions: Seq<u16>, post: Self, step: Step<C>) -> bool {
        &&& post.phase() == Phase::IdlePublishing
        &&& pre.watermark() matches Some(w)
        &&& post.watermark() matches Some(moved)
        &&& step.action matches Action::Publish(publications)
        &&& advanced_by_idling(w, partitions, moved, publications@)
    }

    /// What the end of an action does: after idle watermarks and after a
    /// write the forwarder is between two batches again; after the watermarks
    /// of a batch the batch is handed on.
    pub open spec fn done<C>(
        pre: Self,
        tracker_pre: Entries<C>,
        post: Self,
        tracker_post: Entries<C>,
        step: Step<C>,
    ) -> bool {
        if pre.phase() == Phase::Watermarking {
            &&& post.watermark() == pre.watermark()
            &&& Self::hands_on(pre.staged(), tracker_pre, post, tracker_post, step)
        } else {
            &&& post.phase() == Phase::Idle
            &&& post.watermark() == pre.watermark()
            &&& post.failure() == pre.failure()
            &&& step.action is Resume
            &&& tracker_post == tracker_pre
            &&& step.completions@.len() == 0
        }
    }

    /// The event is one that the forwarder waits for where it stands.
    pub open spec fn awaits<C>(&self, event: Event<C>) -> bool {
        match event {
            Event::Wake { .. } => true,
            Event::Read(_) => self.phase() == Phase::Reading,
            Event::Partitions(_) => self.phase() == Phase::Idling,
            Event::Transformed(_) => self.phase() == Phase::Transforming,
            Event::Done => self.phase() == Phase::IdlePublishing || self.phase()
                == Phase::Watermarking || self.phase() == Phase::Publishing,
        }
    }

    /// What a step does.
    pub open spec fn stepped<C>(
        pre: Self,
        tracker_pre: Entries<C>,
        gate_pre: ReadAheadGate,
        event: Event<C>,
        post: Self,
        tracker_post: Entries<C>,
        gate_post: ReadAheadGate,
        step: Step<C>,
    ) -> bool {
        if !pre.awaits(event) {
            &&& Self::refuses(post, step)
            &&& post.watermark() == pre.watermark()
            &&& tracker_post == tracker_pre
            &&& gate_post.slots() == gate_pre.slots()
            &&& step.ticket is None
            &&& step.completions@.len() == 0
        } else {
            match event {
                Event::Wake { cancelled } => {
                    &&& Self::woken(pre, gate_pre, cancelled, post, gate_post, step)
                    &&& tracker_post == tracker_pre
                    &&& post.watermark() == pre.watermark()
                    &&& step.ticket is None
                    &&& step.completions@.len() == 0
                },
                Event::Read(result) => Self::read(
                    pre,
                    tracker_pre,
                    gate_pre,
                    result,
                    post,
                    tracker_post,
                    gate_post,
                    step,
                ),
                Event::Partitions(partitions) => {
                    &&& Self::idled(pre, partitions@, post, step)
                    &&& tracker_post == tracker_pre
                    &&& gate_post.slots() == gate_pre.slots()
                    &&& step.ticket is None
                    &&& step.completions@.len() == 0
                },
                Event::Transformed(result) => {
                    &&& Self::transformed(pre, tracker_pre, gate_pre, result, post, tracker_post, step)
                    &&& gate_post.slots() == gate_pre.slots()
                    &&& step.ticket is None
                },
                Event::Done => {
                    &&& Self::done(pre, tracker_pre, post, tracker_post, step)
                    &&& gate_post.slots() == gate_pre.slots()
                    &&& step.ticket is None
                },
            }
        }
    }

    /// A forwarder between two batches. `watermark` is the generator, where
    /// watermarks are to be generated.
    pub fn new(has_transformer: bool, watermark: Option<SourceWatermark>) -> (r: Self)
        requires
            watermark matches Some(w) ==> w.wf(),
        ensures
            r.wf(),
            r.phase() == Phase::Idle,
            r.has_transformer() == has_transformer,
            r.watermark() == watermark,
            r.batch() == Seq::<OffsetView>::empty(),
            r.staged() == Seq::<Message>::empty(),
            r.failure() is None,
    {
        let r = SourceForwarder {
            phase: Phase::Idle,
            permit: None,
            has_transformer,
            watermark,
            batch: Vec::new(),
            staged: Vec::new(),
            failure: None,
        };
        assert(r.batch() =~= Seq::<OffsetView>::empty());
        r
    }

    /// Where the forwarder stands.
    pub fn current_phase(&self) -> (r: Phase)
        ensures
            r == self.phase(),
    {
        self.phase
    }

    /// Whether the forwarder has returned.
    pub fn is_stopped(&self) -> (r: bool)
        ensures
            r == (self.phase() == Phase::Stopped),
    {
        match self.phase {
            Phase::Stopped => true,
            _ => false,
        }
    }

    /// Lets go of whatever the forwarder holds of a batch.
    fn clear(&mut self)
        ensures
            final(self).phase() == old(self).phase(),
            final(self).has_transformer() == old(self).has_transformer(),
            final(self).watermark() == old(self).watermark(),
            final(self).permit() is None,
            final(self).batch() == Seq::<OffsetView>::empty(),
            final(self).staged() == Seq::<Message>::empty(),
            final(self).failure() is None,
    {
        self.permit = None;
        self.batch = Vec::new();
        self.staged = Vec::new();
        self.failure = None;
        assert(self.batch() =~= Seq::<OffsetView>::empty());
    }

    fn end<C>(&mut self, gate: &ReadAheadGate, failure: Option<Error>) -> (step: Step<C>)
        requires
            old(self).generator_ok(),
            gate.wf(),
        ensures
            final(self).wf(),
            final(self).has_transformer() == old(self).has_transformer(),
            final(self).watermark() == old(self).watermark(),
            Self::ends(*final(self), *gate, failure, step),
            step.ticket is None,
            step.completions@.len() == 0,
    {
        self.clear();
        if gate.drained() {
            self.phase = Phase::Stopped;
            let result = match failure {
                Some(e) => Err(e),
                None => Ok(()),
            };
            Step { action: Action::Return(result), ticket: None, completions: Vec::new() }
        } else {
            self.phase = Phase::Draining;
            self.failure = failure;
            Step { action: Action::AwaitPermit, ticket: None, completions: Vec::new() }
        }
    }

    fn refuse<C>(&mut self) -> (step: Step<C>)
        requires
            old(self).generator_ok(),
        ensures
            final(self).wf(),
            final(self).has_transformer() == old(self).has_transformer(),
            final(self).watermark() == old(self).watermark(),
            Self::refuses(*final(self), step),
            step.ticket is None,
            step.completions@.len() == 0,
    {
        self.clear();
        self.phase = Phase::Stopped;
        Step { action: Action::Return(Err(Error::Protocol)), ticket: None, completions: Vec::new() }
    }

    fn take_failure(&mut self) -> (r: Option<Error>)
        ensures
            r == old(self).failure(),
            final(self).failure() is None,
            final(self).phase() == old(self).phase(),
            final(self).permit() == old(self).permit(),
            final(self).has_transformer() == old(self).has_transformer(),
            final(self).watermark() == old(self).watermark(),
            final(self).batch() == old(self).batch(),
            final(self).staged() == old(self).staged(),
    {
        let mut failure: Option<Error> = None;
        std::mem::swap(&mut self.failure, &mut failure);
        failure
    }

    fn wake<C>(&mut self, gate: &mut ReadAheadGate, cancelled: bool) -> (step: Step<C>)
        requires
            old(self).wf(),
            old(gate).wf(),
        ensures
            final(self).wf(),
            final(gate).wf(),
            final(gate).capacity() == old(gate).capacity(),
            final(self).has_transformer() == old(self).has_transformer(),
            final(self).watermark() == old(self).watermark(),
            Self::woken(*old(self), *old(gate), cancelled, *final(self), *final(gate), step),
            step.ticket is None,
            step.completions@.len() == 0,
    {
        match self.phase {
            Phase::Draining => {
                let failure = self.take_failure();
                self.end(gate, failure)
            },
            Phase::Idle => {
                if cancelled {
                    let failure = self.take_failure();
                    self.end(gate, failure)
                } else {
                    match gate.try_acquire() {
                        Some(permit) => {
                            self.permit = Some(permit);
                            self.phase = Phase::Reading;
                            Step { action: Action::Read, ticket: None, completions: Vec::new() }
                        },
                        None => Step {
                            action: Action::AwaitPermit,
                            ticket: None,
                            completions: Vec::new(),
                        },
                    }
                }
            },
            _ => self.refuse(),
        }
    }

    fn hand_on<C>(&mut self, tracker: &mut Tracker<C>, messages: Vec<Message>) -> (step: Step<C>)
        requires
            old(self).generator_ok(),
            old(tracker).wf(),
        ensures
            final(self).wf(),
            final(tracker).wf(),
            final(self).has_transformer() == old(self).has_transformer(),
            final(self).watermark() == old(self).watermark(),
            Self::hands_on(messages@, old(tracker)@, *final(self), final(tracker)@, step),
            step.ticket is None,
    {
        let (keep, dropped) = split_dropped(messages);
        let completions = acknowledge_all(tracker, &dropped);
        self.clear();
        self.phase = Phase::Publishing;
        Step { action: Action::Write(keep), ticket: None, completions }
    }

    fn stamp<C>(&mut self, tracker: &mut Tracker<C>, messages: Vec<Message>) -> (step: Step<C>)
        requires
            old(self).generator_ok(),
            old(tracker).wf(),
        ensures
            final(self).wf(),
            final(tracker).wf(),
            final(self).has_transformer() == old(self).has_transformer(),
            final(self).watermark() is Some <==> old(self).watermark() is Some,
            Self::stamps(
                old(self).watermark(),
                messages@,
                old(tracker)@,
                *final(self),
                final(tracker)@,
                step,
            ),
            step.ticket is None,
    {
        self.clear();
        let mut generator: Option<SourceWatermark> = None;
        std::mem::swap(&mut self.watermark, &mut generator);
        match generator {
            Some(mut w) => {
                let publications = w.generate_and_publish_source_watermark(&messages);
                let watermark = w.fetch_source_watermark();
                self.staged = stamp_late(messages, watermark);
                self.watermark = Some(w);
                self.phase = Phase::Watermarking;
                Step { action: Action::Publish(publications), ticket: None, completions: Vec::new() }
            },
            None => self.hand_on(tracker, messages),
        }
    }

    fn give_up<C>(&mut self, tracker: &mut Tracker<C>, gate: &ReadAheadGate, failure: Error) -> (step:
        Step<C>)
        requires
            old(self).generator_ok(),
            old(tracker).wf(),
            gate.wf(),
        ensures
            final(self).wf(),
            final(tracker).wf(),
            final(self).has_transformer() == old(self).has_transformer(),
            Self::gives_up(
                *old(self),
                old(tracker)@,
                *gate,
                failure,
                *final(self),
                final(tracker)@,
                step,
            ),
            step.ticket is None,
    {
        let mut batch: Vec<Offset> = Vec::new();
        std::mem::swap(&mut self.batch, &mut batch);
        let completions = discard_all(tracker, &batch);
        let ended: Step<C> = self.end(gate, Some(failure));
        Step { action: ended.action, ticket: None, completions }
    }

    fn on_read<C>(
        &mut self,
        tracker: &mut Tracker<C>,
        gate: &mut ReadAheadGate,
        result: Result<Vec<Arrival<C>>, Error>,
    ) -> (step: Step<C>)
        requires
            old(self).wf(),
            old(self).phase() == Phase::Reading,
            old(tracker).wf(),
            old(gate).wf(),
        ensures
            final(self).wf(),
            final(tracker).wf(),
            final(gate).wf(),
            final(gate).capacity() == old(gate).capacity(),
            final(self).has_transformer() == old(self).has_transformer(),
            final(self).watermark() is Some <==> old(self).watermark() is Some,
            Self::read(
                *old(self),
                old(tracker)@,
                *old(gate),
                result,
                *final(self),
                final(tracker)@,
                *final(gate),
                step,
            ),
    {
        let mut held: Option<Permit> = None;
        std::mem::swap(&mut self.permit, &mut held);
        let permit = match held {
            Some(permit) => permit,
            None => {
                // a forwarder that reads holds a permit
                return self.refuse();
            },
        };
        match result {
            Err(e) => {
                gate.release(permit);
                self.end(gate, Some(e))
            },
            Ok(batch) => {
                if batch.len() == 0 {
                    gate.release(permit);
                    self.clear();
                    if self.watermark.is_some() {
                        self.phase = Phase::Idling;
                        Step { action: Action::FetchPartitions, ticket: None, completions: Vec::new() }
                    } else {
                        self.phase = Phase::Idle;
                        Step { action: Action::Resume, ticket: None, completions: Vec::new() }
                    }
                } else {
                    let count = batch.len();
                    match track_batch(tracker, batch) {
                        Err(e) => {
                            self.clear();
                            self.phase = Phase::Stopped;
                            Step {
                                action: Action::Return(Err(Error::DuplicateOffset)),
                                ticket: None,
                                completions: Vec::new(),
                            }
                        },
                        Ok((messages, offsets)) => {
                            assert(views(offsets@).len() == offsets@.len());
                            assert(offsets_of(messages@).len() == messages@.len());
                            gate.load(&permit, count);
                            if self.has_transformer {
                                let ticket = BatchTicket::new(clone_offsets(&offsets));
                                self.clear();
                                self.batch = offsets;
                                self.phase = Phase::Transforming;
                                Step {
                                    action: Action::Transform(messages),
                                    ticket: Some(Scheduled { ticket, permit }),
                                    completions: Vec::new(),
                                }
                            } else {
                                let ticket = BatchTicket::new(offsets);
                                let stamped: Step<C> = self.stamp(tracker, messages);
                                Step {
                                    action: stamped.action,
                                    ticket: Some(Scheduled { ticket, permit }),
                                    completions: stamped.completions,
                                }
                            }
                        },
                    }
                }
            },
        }
    }

    fn on_transformed<C>(
        &mut self,
        tracker: &mut Tracker<C>,
        gate: &ReadAheadGate,
        result: Result<Vec<Message>, Error>,
    ) -> (step: Step<C>)
        requires
            old(self).wf(),
            old(self).phase() == Phase::Transforming,
            old(tracker).wf(),
            gate.wf(),
        ensures
            final(self).wf(),
            final(tracker).wf(),
            final(self).has_transformer() == old(self).has_transformer(),
            final(self).watermark() is Some <==> old(self).watermark() is Some,
            Self::transformed(
                *old(self),
                old(tracker)@,
                *gate,
                result,
                *final(self),
                final(tracker)@,
                step,
            ),
            step.ticket is None,
    {
        match result {
            Err(e) => self.give_up(tracker, gate, e),
            Ok(outputs) => {
                match account_fan_out(tracker, &outputs) {
                    Err(_) => self.give_up(tracker, gate, Error::TooManySignals),
                    Ok(()) => self.stamp(tracker, outputs),
                }
            },
        }
    }

    fn on_partitions<C>(&mut self, partitions: Vec<u16>) -> (step: Step<C>)
        requires
            old(self).wf(),
            old(self).phase() == Phase::Idling,
        ensures
            final(self).wf(),
            final(self).has_transformer() == old(self).has_transformer(),
            final(self).watermark() is Some <==> old(self).watermark() is Some,
            Self::idled(*old(self), partitions@, *final(self), step),
            step.ticket is None,
            step.completions@.len() == 0,
    {
        let mut generator: Option<SourceWatermark> = None;
        std::mem::swap(&mut self.watermark, &mut generator);
        match generator {
            Some(mut w) => {
                let publications = w.publish_source_idle_watermark(&partitions);
                self.clear();
                self.watermark = Some(w);
                self.phase = Phase::IdlePublishing;
                Step { action: Action::Publish(publications), ticket: None, completions: Vec::new() }
            },
            None => {
                // a forwarder that idles has a generator
                self.refuse()
            },
        }
    }

    fn on_done<C>(&mut self, tracker: &mut Tracker<C>) -> (step: Step<C>)
        requires
            old(self).wf(),
            old(self).phase() == Phase::IdlePublishing || old(self).phase() == Phase::Watermarking
                || old(self).phase() == Phase::Publishing,
            old(tracker).wf(),
        ensures
            final(self).wf(),
            final(tracker).wf(),
            final(self).has_transformer() == old(self).has_transformer(),
            final(self).watermark() is Some <==> old(self).watermark() is Some,
            Self::done(*old(self), old(tracker)@, *final(self), final(tracker)@, step),
            step.ticket is None,
    {
        match self.phase {
            Phase::Watermarking => {
                let mut staged: Vec<Message> = Vec::new();
                std::mem::swap(&mut self.staged, &mut staged);
                self.hand_on(tracker, staged)
            },
            _ => {
                self.clear();
                self.phase = Phase::Idle;
                Step { action: Action::Resume, ticket: None, completions: Vec::new() }
            },
        }
    }

    /// Takes the forwarder one step on: it is told what happened, changes the
    /// tracker and the permits as the event demands, and says what is to be done
    /// next. An event that the forwarder was not waiting for stops it.
    pub fn step<C>(&mut self, tracker: &mut Tracker<C>, gate: &mut ReadAheadGate, event: Event<C>) -> (step:
        Step<C>)
        requires
            old(self).wf(),
            old(tracker).wf(),
            old(gate).wf(),
        ensures
            final(self).wf(),
            final(tracker).wf(),
            final(gate).wf(),
            final(gate).capacity() == old(gate).capacity(),
            final(self).has_transformer() == old(self).has_transformer(),
            final(self).watermark() is Some <==> old(self).watermark() is Some,
            Self::stepped(
                *old(self),
                old(tracker)@,
                *old(gate),
                event,
                *final(self),
                final(tracker)@,
                *final(gate),
                step,
            ),
    {
        match event {
            Event::Wake { cancelled } => self.wake(gate, cancelled),
            Event::Read(result) => {
                match self.phase {
                    Phase::Reading => self.on_read(tracker, gate, result),
                    _ => self.refuse(),
                }
            },
            Event::Partitions(partitions) => {
                match self.phase {
                    Phase::Idling => self.on_partitions(partitions),
                    _ => self.refuse(),
                }
            },
            Event::Transformed(result) => {
                match self.phase {
                    Phase::Transforming => self.on_transformed(tracker, gate, result),
                    _ => self.refuse(),
                }
            },
            Event::Done => {
                match self.phase {
                    Phase::IdlePublishing | Phase::Watermarking | Phase::Publishing => self.on_done(
                        tracker,
                    ),
                    _ => self.refuse(),
                }
            },
        }
    }
}

/// What a probe of the source said: that it is ready or not, or that the
/// probe failed. `None` where the source has nothing to probe.
pub open spec fn source_ready(probe: Option<Result<bool, Error>>) -> bool {
    match probe {
        Some(Ok(ready)) => ready,
        Some(Err(_)) => false,
        None => true,
    }
}

/// What the transformer said of its readiness. `None` where there is no
/// transformer.
pub open spec fn transformer_ready(probe: Option<bool>) -> bool {
    match probe {
        Some(ready) => ready,
        None => true,
    }
}

/// Whether the source vertex is ready: the source and the transformer both
/// are. A source without a probe counts as ready, one whose probe failed does
/// not; a vertex without a transformer needs none to be ready.
pub fn ready(source: Option<Result<bool, Error>>, transformer: Option<bool>) -> (r: bool)
    ensures
        r == (source_ready(source) && transformer_ready(transformer)),
{
    let source_is_ready = match source {
        Some(Ok(ready)) => ready,
        Some(Err(_)) => false,
        None => true,
    };
    let transformer_is_ready = match transformer {
        Some(ready) => ready,
        None => true,
    };
    source_is_ready && transformer_is_ready
}

} // verus!
