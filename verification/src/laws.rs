//! What holds of the data plane as a whole: laws that tie the tracker, the
//! acknowledgement of a batch, the read-ahead gate, the watermark generator
//! and the forwarder together.

use crate::ack::{views, AckAction, AckEvent, AckPhase, AckTask, BatchTicket, Resolution};
use crate::backpressure::{
    lemma_within, spec_max_ack_tasks, with_freed, with_load, with_taken, within, ReadAheadGate,
    MAX_ACK_PENDING,
};
use crate::batch::{
    acknowledged, clashes, fanned, first_clash, first_overflow, kept, left_by_acks,
    lemma_registered, messages_of, offsets_of, overflows, registered, repeated, stamped, Arrival,
};
use crate::message::{Message, OffsetView, ReadAck, Timestamp};
use crate::source::{Action, Event, Phase, SourceForwarder, Step};
use crate::tracker::{
    after_insert, after_signal, completed_by, Disposition, Entries, EntryState,
};
use crate::watermark::{idle_advanced, idled, SourceWatermark};
use vstd::prelude::*;

verus! {

/// The entries in flight after the given signals arrived for one offset, one
/// after the other.
pub open spec fn signalled_all<C>(m: Entries<C>, o: OffsetView, outcomes: Seq<ReadAck>) -> Entries<C>
    decreases outcomes.len(),
{
    if outcomes.len() == 0 {
        m
    } else {
        after_signal(signalled_all(m, o, outcomes.drop_last()), o, outcomes.last())
    }
}

/// A message that was registered and is written once is resolved by the one
/// signal of its write, and by nothing after it: an Ack of the writer makes
/// the entry leave as an Ack, and the offset is then no longer in flight, so
/// that a later signal for it is ignored.
pub proof fn lemma_one_write_resolves_once<C>(m: Entries<C>, o: OffsetView, completion: C)
    requires
        !m.contains_key(o),
    ensures
        completed_by(after_insert(m, o, completion), o, ReadAck::Ack) == Some(
            EntryState {
                completion,
                expected_signals: 1,
                received_signals: 1,
                disposition: Disposition::Ack,
            },
        ),
        after_signal(after_insert(m, o, completion), o, ReadAck::Ack) == m,
        forall|outcome: ReadAck|
            completed_by(
                after_signal(after_insert(m, o, completion), o, ReadAck::Ack),
                o,
                outcome,
            ) is None,
{
    let inserted = after_insert(m, o, completion);
    assert(after_signal(inserted, o, ReadAck::Ack) =~= m);
}

/// No entry leaves the tracker before every signal that it expects has
/// arrived: while fewer signals have come than the entry still waits for,
/// none of them completes it, and the entry stays in flight with its count.
pub proof fn lemma_no_completion_before_last_signal<C>(
    m: Entries<C>,
    o: OffsetView,
    outcomes: Seq<ReadAck>,
)
    requires
        m.contains_key(o),
        m[o].received_signals + outcomes.len() < m[o].expected_signals,
    ensures
        signalled_all(m, o, outcomes).contains_key(o),
        signalled_all(m, o, outcomes)[o].expected_signals == m[o].expected_signals,
        signalled_all(m, o, outcomes)[o].received_signals == m[o].received_signals + outcomes.len(),
        signalled_all(m, o, outcomes)[o].disposition == (if m[o].disposition == Disposition::Nak
            || outcomes.contains(ReadAck::Nak) {
            Disposition::Nak
        } else {
            m[o].disposition
        }),
        forall|k: int|
            0 <= k < outcomes.len() ==> completed_by(
                #[trigger] signalled_all(m, o, outcomes.take(k)),
                o,
                outcomes[k],
            ) is None,
    decreases outcomes.len(),
{
    if outcomes.len() > 0 {
        let earlier = outcomes.drop_last();
        let n = outcomes.len() - 1;
        lemma_no_completion_before_last_signal(m, o, earlier);
        assert forall|k: int| 0 <= k < outcomes.len() implies completed_by(
            #[trigger] signalled_all(m, o, outcomes.take(k)),
            o,
            outcomes[k],
        ) is None by {
            if k < n {
                assert(outcomes.take(k) =~= earlier.take(k));
                assert(outcomes[k] == earlier[k]);
            } else {
                assert(outcomes.take(k) =~= earlier);
            }
        }
        if outcomes.contains(ReadAck::Nak) {
            let i = choose|i: int| 0 <= i < outcomes.len() && outcomes[i] == ReadAck::Nak;
            if i < n {
                assert(earlier[i] == ReadAck::Nak);
            }
        }
        if earlier.contains(ReadAck::Nak) {
            let i = choose|i: int| 0 <= i < earlier.len() && earlier[i] == ReadAck::Nak;
            assert(outcomes[i] == ReadAck::Nak);
        }
    }
}

/// The signal that an entry waits for last completes it: the entry leaves
/// the tracker, and it leaves as an Ack exactly where no Nak had latched and
/// every signal was an Ack. So the source hears of an offset only after every
/// output that the offset fanned out to was resolved.
pub proof fn lemma_last_signal_completes<C>(m: Entries<C>, o: OffsetView, outcomes: Seq<ReadAck>)
    requires
        m.contains_key(o),
        outcomes.len() > 0,
        m[o].received_signals + outcomes.len() == m[o].expected_signals,
    ensures
        !signalled_all(m, o, outcomes).contains_key(o),
        completed_by(signalled_all(m, o, outcomes.drop_last()), o, outcomes.last()) matches Some(e)
            && (e.outcome() == ReadAck::Ack <==> (m[o].disposition != Disposition::Nak
            && !outcomes.contains(ReadAck::Nak))),
{
    let earlier = outcomes.drop_last();
    let n = outcomes.len() - 1;
    lemma_no_completion_before_last_signal(m, o, earlier);
    if outcomes.contains(ReadAck::Nak) {
        let i = choose|i: int| 0 <= i < outcomes.len() && outcomes[i] == ReadAck::Nak;
        if i < n {
            assert(earlier[i] == ReadAck::Nak);
        }
    }
    if earlier.contains(ReadAck::Nak) {
        let i = choose|i: int| 0 <= i < earlier.len() && earlier[i] == ReadAck::Nak;
        assert(outcomes[i] == ReadAck::Nak);
    }
    if outcomes.last() == ReadAck::Nak {
        assert(outcomes[n] == ReadAck::Nak);
    }
}

/// A batch is acknowledged at the source only once every promise of the
/// batch has resolved, and with the offsets that resolved as an Ack.
pub proof fn lemma_ack_waits_for_every_promise(
    pre: AckTask,
    event: AckEvent,
    post: AckTask,
    action: AckAction,
)
    requires
        pre.wf(),
        post.wf(),
        AckTask::stepped(pre, event, post, action),
    ensures
        action matches AckAction::Ack(offsets) ==> post.ticket().waiting() == 0 && views(offsets@)
            == post.ticket().acks(),
        action is Release ==> post.phase() == AckPhase::Finished && post.ticket().waiting() == 0,
{
}

/// Giving permits back, taking them, and noting the size of a batch that
/// holds no more than `batch_size` messages keep every batch in flight within
/// `batch_size` messages.
pub proof fn lemma_slots_stay_within(slots: Seq<Option<usize>>, slot: int, n: usize, batch_size: usize)
    requires
        within(slots, batch_size),
    ensures
        within(with_freed(slots, slot), batch_size),
        within(with_taken(slots, slot), batch_size),
        n <= batch_size ==> within(with_load(slots, slot, n), batch_size),
{
}

/// A step of the forwarder keeps every batch in flight within `batch_size`
/// messages, as long as no read hands over more than `batch_size` messages.
pub proof fn lemma_step_keeps_batches_within<C>(
    pre: SourceForwarder,
    tracker_pre: Entries<C>,
    gate_pre: ReadAheadGate,
    event: Event<C>,
    post: SourceForwarder,
    tracker_post: Entries<C>,
    gate_post: ReadAheadGate,
    step: Step<C>,
    batch_size: usize,
)
    requires
        SourceForwarder::stepped(
            pre,
            tracker_pre,
            gate_pre,
            event,
            post,
            tracker_post,
            gate_post,
            step,
        ),
        within(gate_pre.slots(), batch_size),
        event matches Event::Read(Ok(batch)) ==> batch@.len() <= batch_size,
    ensures
        within(gate_post.slots(), batch_size),
{
    if pre.awaits(event) {
        match event {
            Event::Wake { cancelled } => {
                if pre.phase() == Phase::Idle && !cancelled && gate_pre.in_flight()
                    < gate_pre.capacity() {
                    lemma_slots_stay_within(
                        gate_pre.slots(),
                        post.permit().unwrap().slot(),
                        0,
                        batch_size,
                    );
                }
            },
            Event::Read(result) => {
                lemma_slots_stay_within(
                    gate_pre.slots(),
                    pre.permit().unwrap().slot(),
                    match result {
                        Ok(batch) => batch@.len() as usize,
                        Err(_) => 0usize,
                    },
                    batch_size,
                );
            },
            _ => {},
        }
    }
}

/// Backpressure. Where no batch in flight holds more than `batch_size`
/// messages, the messages in flight are no more than `batch_size` for each
/// permit: without read-ahead no more than `batch_size` in all, with it no
/// more than the bound on what may wait for its acknowledgement.
pub proof fn lemma_backpressure(gate: ReadAheadGate, read_ahead: bool, batch_size: usize)
    requires
        gate.wf(),
        read_ahead ==> batch_size > 0,
        gate.capacity() == spec_max_ack_tasks(read_ahead, batch_size),
        within(gate.slots(), batch_size),
    ensures
        gate.in_flight() <= gate.capacity(),
        gate.messages_in_flight() <= gate.capacity() * batch_size,
        !read_ahead ==> gate.in_flight() <= 1 && gate.messages_in_flight() <= batch_size,
        read_ahead ==> gate.messages_in_flight() <= MAX_ACK_PENDING,
{
    gate.lemma_wf();
    lemma_within(gate.slots(), batch_size);
    let k = gate.in_flight() as int;
    let c = gate.capacity() as int;
    let b = batch_size as int;
    assert(k * b <= c * b) by (nonlinear_arith)
        requires
            0 <= k <= c,
            0 <= b,
    ;
    if read_ahead {
        assert((MAX_ACK_PENDING as int / b) * b <= MAX_ACK_PENDING as int) by (nonlinear_arith)
            requires
                b > 0,
        ;
    }
}

/// A message that is late against a watermark is late against every later
/// one.
pub proof fn lemma_late_is_monotone(m: Message, earlier: Timestamp, later: Timestamp)
    requires
        !later.before(earlier),
    ensures
        stamped(m, earlier).is_late ==> stamped(m, later).is_late,
{
}

/// Late detection. When a batch gets its watermarks, every message whose
/// event time lies before the watermark of the source is marked late, and no
/// other; nothing else of a message changes.
pub proof fn lemma_late_messages_are_marked<C>(
    generator: SourceWatermark,
    messages: Seq<Message>,
    tracker_pre: Entries<C>,
    post: SourceForwarder,
    tracker_post: Entries<C>,
    step: Step<C>,
)
    requires
        SourceForwarder::stamps(Some(generator), messages, tracker_pre, post, tracker_post, step),
    ensures
        post.watermark() is Some,
        post.staged().len() == messages.len(),
        forall|i: int|
            0 <= i < messages.len() ==> (#[trigger] post.staged()[i]).is_late
                == messages[i].event_time.before(post.watermark().unwrap().source_watermark()),
        forall|i: int|
            0 <= i < messages.len() ==> #[trigger] post.staged()[i] == stamped(
                messages[i],
                post.watermark().unwrap().source_watermark(),
            ),
{
}

/// Drop semantics, first half. Of the messages that are handed on, those that
/// are marked for discard never reach the writer, and every other message
/// does.
pub proof fn lemma_dropped_never_written<C>(
    messages: Seq<Message>,
    tracker_pre: Entries<C>,
    post: SourceForwarder,
    tracker_post: Entries<C>,
    step: Step<C>,
)
    requires
        SourceForwarder::hands_on(messages, tracker_pre, post, tracker_post, step),
    ensures
        step.action matches Action::Write(written) && (forall|j: int|
            0 <= j < written@.len() ==> !(#[trigger] written@[j]).is_dropped()
                && messages.contains(written@[j])) && (forall|i: int|
            0 <= i < messages.len() && !(#[trigger] messages[i]).is_dropped()
                ==> written@.contains(messages[i])),
{
    let keep = |m: Message| !m.is_dropped();
    let written = kept(messages);
    assert forall|j: int| 0 <= j < written.len() implies !(#[trigger] written[j]).is_dropped()
        && messages.contains(written[j]) by {
        messages.lemma_filter_pred(keep, j);
        assert(written.contains(written[j]));
        messages.lemma_filter_contains_rev(keep, written[j]);
    }
    assert forall|i: int|
        0 <= i < messages.len() && !(#[trigger] messages[i]).is_dropped() implies written.contains(
        messages[i],
    ) by {
        messages.lemma_filter_contains(keep, i);
    }
}

/// Signals for other offsets leave the entry of an offset as it is.
proof fn lemma_other_acks_leave_entry<C>(m: Entries<C>, offsets: Seq<OffsetView>, k: int, o: OffsetView)
    requires
        0 <= k <= offsets.len(),
        forall|j: int| 0 <= j < k ==> #[trigger] offsets[j] != o,
    ensures
        acknowledged(m, offsets, k).contains_key(o) == m.contains_key(o),
        m.contains_key(o) ==> acknowledged(m, offsets, k)[o] == m[o],
        forall|j: int|
            0 <= j < left_by_acks(m, offsets, k).len() ==> (#[trigger] left_by_acks(
                m,
                offsets,
                k,
            )[j]).0 != o,
    decreases k,
{
    if k > 0 {
        lemma_other_acks_leave_entry(m, offsets, k - 1, o);
        assert(offsets[k - 1] != o);
    }
}

/// What left the tracker by an earlier signal has left it by all that
/// follow.
proof fn lemma_left_stays_left<C>(
    m: Entries<C>,
    offsets: Seq<OffsetView>,
    k: int,
    n: int,
    j: int,
)
    requires
        0 <= k <= n <= offsets.len(),
        0 <= j < left_by_acks(m, offsets, k).len(),
    ensures
        j < left_by_acks(m, offsets, n).len(),
        left_by_acks(m, offsets, n)[j] == left_by_acks(m, offsets, k)[j],
    decreases n - k,
{
    if k < n {
        lemma_left_stays_left(m, offsets, k, n - 1, j);
    }
}

/// Drop semantics, second half. A message that is marked for discard is
/// acknowledged in place of being written: where its entry waits for one
/// signal only and no Nak has latched, the entry leaves the tracker as an Ack
/// when the batch is handed on.
pub proof fn lemma_dropped_is_acknowledged<C>(m: Entries<C>, dropped: Seq<OffsetView>, i: int)
    requires
        0 <= i < dropped.len(),
        dropped.no_duplicates(),
        m.contains_key(dropped[i]),
        m[dropped[i]].received_signals + 1 == m[dropped[i]].expected_signals,
        m[dropped[i]].disposition != Disposition::Nak,
    ensures
        !acknowledged(m, dropped, dropped.len() as int).contains_key(dropped[i]),
        exists|j: int|
            0 <= j < left_by_acks(m, dropped, dropped.len() as int).len() && (#[trigger] left_by_acks(
                m,
                dropped,
                dropped.len() as int,
            )[j]).0 == dropped[i] && left_by_acks(m, dropped, dropped.len() as int)[j].1.outcome()
                == ReadAck::Ack,
{
    let o = dropped[i];
    let n = dropped.len() as int;
    // up to the message's turn its entry is untouched
    lemma_other_acks_leave_entry(m, dropped, i, o);
    let before = acknowledged(m, dropped, i);
    let gone = acknowledged(m, dropped, i + 1);
    assert(gone == after_signal(before, o, ReadAck::Ack));
    assert(!gone.contains_key(o));
    let left = left_by_acks(m, dropped, i + 1);
    let j = left.len() - 1;
    assert(left[j].0 == o && left[j].1.outcome() == ReadAck::Ack);
    // the signals that follow are for other offsets
    lemma_left_stays_left(m, dropped, i + 1, n, j);
    lemma_later_acks_leave_absent(m, dropped, i + 1, n, o);
}

/// An offset that is not in flight stays out of flight under signals.
proof fn lemma_later_acks_leave_absent<C>(
    m: Entries<C>,
    offsets: Seq<OffsetView>,
    k: int,
    n: int,
    o: OffsetView,
)
    requires
        0 <= k <= n <= offsets.len(),
        !acknowledged(m, offsets, k).contains_key(o),
    ensures
        !acknowledged(m, offsets, n).contains_key(o),
    decreases n - k,
{
    if k < n {
        lemma_later_acks_leave_absent(m, offsets, k, n - 1, o);
    }
}

/// The generators that `rounds` idle steps over the same partitions lead
/// through, from the first to the last.
pub open spec fn idle_rounds(states: Seq<SourceWatermark>, partitions: Seq<u16>) -> bool {
    forall|i: int|
        0 <= i < states.len() - 1 ==> idled(#[trigger] states[i], partitions, states[i + 1])
}

/// Idle watermark progression. After as many reads in a row came back empty
/// as it takes for their timeouts to add up to an idle step, the watermark of
/// every partition that the source owns has advanced by an idle step at
/// least, or has reached the latest instant.
pub proof fn lemma_idle_watermark_progression(
    states: Seq<SourceWatermark>,
    partitions: Seq<u16>,
    p: u16,
    empty_reads: nat,
    read_timeout: nat,
)
    requires
        states.len() == empty_reads + 1,
        idle_rounds(states, partitions),
        partitions.contains(p),
        states[0].idle_step() > 0,
        empty_reads * read_timeout >= states[0].idle_step(),
        states[0].watermark_of(p).normal(),
    ensures
        states.last().watermark_of(p).total_nanos() >= Timestamp::clamped(
            states[0].watermark_of(p).total_nanos() + states[0].idle_step() * 1_000_000,
        ),
        !states.last().watermark_of(p).before(states[0].watermark_of(p)),
{
    assert(empty_reads >= 1) by (nonlinear_arith)
        requires
            empty_reads * read_timeout >= states[0].idle_step(),
            states[0].idle_step() > 0,
    ;
    lemma_idle_rounds(states, partitions, p, empty_reads as int);
}

/// An idle step takes the watermark of a partition on by the idle step, or to
/// the latest instant.
proof fn lemma_idle_step(w: Timestamp, step: u64)
    requires
        w.normal(),
    ensures
        idle_advanced(w, step).normal(),
        idle_advanced(w, step).total_nanos() == Timestamp::clamped(
            w.total_nanos() + step * 1_000_000,
        ),
        idle_advanced(w, step).total_nanos() >= w.total_nanos(),
{
    Timestamp::lemma_of_total(w.total_nanos() + step * 1_000_000);
    let next = w.spec_plus_millis(step);
    w.lemma_before_is_fewer_nanos(next);
    next.lemma_before_is_fewer_nanos(w);
}

proof fn lemma_idle_rounds(states: Seq<SourceWatermark>, partitions: Seq<u16>, p: u16, k: int)
    requires
        1 <= k < states.len(),
        idle_rounds(states, partitions),
        partitions.contains(p),
        states[0].watermark_of(p).normal(),
    ensures
        states[k].idle_step() == states[0].idle_step(),
        states[k].watermark_of(p).normal(),
        states[k].watermark_of(p).total_nanos() >= Timestamp::clamped(
            states[0].watermark_of(p).total_nanos() + states[0].idle_step() * 1_000_000,
        ),
        states[k].watermark_of(p).total_nanos() >= states[0].watermark_of(p).total_nanos(),
        !states[k].watermark_of(p).before(states[0].watermark_of(p)),
    decreases k,
{
    assert(idled(states[k - 1], partitions, states[k]));
    if k == 1 {
        lemma_idle_step(states[0].watermark_of(p), states[0].idle_step());
    } else {
        lemma_idle_rounds(states, partitions, p, k - 1);
        lemma_idle_step(states[k - 1].watermark_of(p), states[k - 1].idle_step());
    }
    states[k].watermark_of(p).lemma_before_is_fewer_nanos(states[0].watermark_of(p));
}

/// Where no message of a batch clashes from some place on, none of the
/// messages from that place on does.
proof fn lemma_no_clash<C>(m: Entries<C>, batch: Seq<Arrival<C>>, from: int, k: int)
    requires
        0 <= from <= k < batch.len(),
        first_clash(m, batch, from) == batch.len(),
    ensures
        !clashes(m, batch, k),
    decreases k - from,
{
    if from < k {
        lemma_no_clash(m, batch, from + 1, k);
    }
}

/// A batch that was registered holds every offset once, and none that was in
/// flight before it.
pub proof fn lemma_registered_batch_is_distinct<C>(m: Entries<C>, batch: Seq<Arrival<C>>)
    requires
        first_clash(m, batch, 0) == batch.len(),
    ensures
        offsets_of(messages_of(batch)).no_duplicates(),
        forall|i: int| 0 <= i < batch.len() ==> !m.contains_key((#[trigger] batch[i]).message.offset@),
{
    let offsets = offsets_of(messages_of(batch));
    assert forall|i: int| 0 <= i < batch.len() implies !m.contains_key(
        (#[trigger] batch[i]).message.offset@,
    ) by {
        lemma_no_clash(m, batch, 0, i);
        lemma_registered(m, batch, i);
    }
    assert forall|i: int, j: int| 0 <= i < offsets.len() && 0 <= j < offsets.len() && i
        != j implies offsets[i] != offsets[j] by {
        let (a, b) = if i < j {
            (i, j)
        } else {
            (j, i)
        };
        lemma_no_clash(m, batch, 0, b);
        lemma_registered(m, batch, b);
        if batch[a].message.offset@ == batch[b].message.offset@ {
            assert(registered(m, batch, b).contains_key(batch[b].message.offset@));
        }
    }
}

/// At most one acknowledgement for an offset. The ticket of a batch that
/// was registered acknowledges no offset twice: the offsets to acknowledge
/// are those whose promise resolved as an Ack, each once.
pub proof fn lemma_no_offset_acknowledged_twice<C>(
    m: Entries<C>,
    batch: Seq<Arrival<C>>,
    ticket: BatchTicket,
)
    requires
        first_clash(m, batch, 0) == batch.len(),
        ticket.wf(),
        ticket.offsets() == offsets_of(messages_of(batch)),
    ensures
        ticket.acks().no_duplicates(),
        forall|i: int|
            0 <= i < ticket.offsets().len() && #[trigger] ticket.resolutions()[i]
                == Resolution::Ack ==> ticket.acks().contains(ticket.offsets()[i]),
{
    lemma_registered_batch_is_distinct(m, batch);
    ticket.lemma_acks();
}

/// Number of the first `k` outputs that carry the offset `o`.
pub open spec fn occurrences(outputs: Seq<Message>, o: OffsetView, k: int) -> nat
    decreases k,
{
    if k <= 0 {
        0
    } else {
        occurrences(outputs, o, k - 1) + (if outputs[k - 1].offset@ == o {
            1nat
        } else {
            0nat
        })
    }
}

/// An output repeats an offset exactly where an earlier output carries it.
proof fn lemma_repeated_occurs(outputs: Seq<Message>, j: int, k: int)
    requires
        0 <= k <= j < outputs.len(),
    ensures
        occurrences(outputs, outputs[j].offset@, k) > 0 <==> exists|i: int|
            0 <= i < k && (#[trigger] outputs[i]).offset@ == outputs[j].offset@,
    decreases k,
{
    if k > 0 {
        lemma_repeated_occurs(outputs, j, k - 1);
        let o = outputs[j].offset@;
        if outputs[k - 1].offset@ == o {
            assert(outputs[k - 1].offset@ == outputs[j].offset@);
        }
        if exists|i: int| 0 <= i < k && (#[trigger] outputs[i]).offset@ == o {
            let i = choose|i: int| 0 <= i < k && (#[trigger] outputs[i]).offset@ == o;
            if i < k - 1 {
                assert(outputs[i].offset@ == outputs[j].offset@);
            }
        }
    }
}

/// Where no output overflows from some place on, none of the outputs from
/// that place on does.
proof fn lemma_no_overflow<C>(m: Entries<C>, outputs: Seq<Message>, from: int, k: int)
    requires
        0 <= from <= k < outputs.len(),
        first_overflow(m, outputs, from) == outputs.len(),
    ensures
        !overflows(m, outputs, k),
    decreases k - from,
{
    if from < k {
        lemma_no_overflow(m, outputs, from + 1, k);
    }
}

/// Fan-out accounting. Once the outputs of the transformer are accounted
/// for, the entry of an input expects one signal for each output that carries
/// its offset, and one signal where no output carries it; nothing else of the
/// entry changes. With the law on the last signal this says that an input is
/// resolved only after every output it fanned out to was.
pub proof fn lemma_fan_out_counts<C>(m: Entries<C>, outputs: Seq<Message>, o: OffsetView, k: int)
    requires
        0 <= k <= outputs.len(),
        first_overflow(m, outputs, 0) == outputs.len(),
        m.contains_key(o),
    ensures
        fanned(m, outputs, k).contains_key(o),
        fanned(m, outputs, k)[o].expected_signals == m[o].expected_signals + (if occurrences(
            outputs,
            o,
            k,
        ) > 0 {
            occurrences(outputs, o, k) - 1
        } else {
            0
        }),
        fanned(m, outputs, k)[o].received_signals == m[o].received_signals,
        fanned(m, outputs, k)[o].disposition == m[o].disposition,
        fanned(m, outputs, k)[o].completion == m[o].completion,
    decreases k,
{
    if k > 0 {
        lemma_fan_out_counts(m, outputs, o, k - 1);
        let j = k - 1;
        lemma_repeated_occurs(outputs, j, j);
        lemma_no_overflow(m, outputs, 0, j);
        if outputs[j].offset@ == o {
            assert(repeated(outputs, j) <==> occurrences(outputs, o, j) > 0);
        }
    }
}

} // verus!
