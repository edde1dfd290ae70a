//! What the forwarder does to the messages of one batch: it registers them
//! with the tracker, accounts for what the transformer fanned out, stamps late
//! messages, and parts the messages to write from those to drop.

use crate::ack::views;
use crate::error::Error;
use crate::message::{Message, Offset, OffsetView, ReadAck, Timestamp};
use crate::tracker::{
    after_extend, after_insert, after_signal, completed_by, Entries, EntryState, Tracker,
    TrackerEntry,
};
use vstd::prelude::*;

verus! {

/// A message that was read, with the promise through which its outcome is
/// to be reported.
#[derive(Debug)]
pub struct Arrival<C> {
    pub message: Message,
    pub completion: C,
}

/// The messages of a batch that was read.
pub open spec fn messages_of<C>(batch: Seq<Arrival<C>>) -> Seq<Message> {
    batch.map_values(|t: Arrival<C>| t.message)
}

/// The offsets of a sequence of messages.
pub open spec fn offsets_of(messages: Seq<Message>) -> Seq<OffsetView> {
    messages.map_values(|m: Message| m.offset@)
}

/// The entries in flight after the first `k` messages of a batch were
/// registered, one after the other.
pub open spec fn registered<C>(m: Entries<C>, batch: Seq<Arrival<C>>, k: int) -> Entries<C>
    decreases k,
{
    if k <= 0 {
        m
    } else {
        after_insert(
            registered(m, batch, k - 1),
            batch[k - 1].message.offset@,
            batch[k - 1].completion,
        )
    }
}

/// The offset of the `k`-th message of a batch is in flight when its turn
/// comes: it was in flight before the batch, or an earlier message of the
/// batch has it.
pub open spec fn clashes<C>(m: Entries<C>, batch: Seq<Arrival<C>>, k: int) -> bool {
    registered(m, batch, k).contains_key(batch[k].message.offset@)
}

/// The place of the first message of a batch whose offset clashes, or the
/// length of the batch where none does.
pub open spec fn first_clash<C>(m: Entries<C>, batch: Seq<Arrival<C>>, from: int) -> int
    decreases batch.len() - from,
{
    if from >= batch.len() {
        batch.len() as int
    } else if clashes(m, batch, from) {
        from
    } else {
        first_clash(m, batch, from + 1)
    }
}

/// The first clash lies at or behind the place from which it is sought, and
/// within the batch or at its end.
pub proof fn lemma_first_clash_bounds<C>(m: Entries<C>, batch: Seq<Arrival<C>>, from: int)
    requires
        0 <= from <= batch.len(),
    ensures
        from <= first_clash(m, batch, from) <= batch.len(),
    decreases batch.len() - from,
{
    if from < batch.len() && !clashes(m, batch, from) {
        lemma_first_clash_bounds(m, batch, from + 1);
    }
}

/// Registration leaves alone what was in flight, and adds the offsets of the
/// messages that were registered.
pub proof fn lemma_registered<C>(m: Entries<C>, batch: Seq<Arrival<C>>, k: int)
    requires
        0 <= k <= batch.len(),
    ensures
        forall|o: OffsetView| #[trigger]
            registered(m, batch, k).contains_key(o) <==> (m.contains_key(o) || exists|i: int|
                0 <= i < k && (#[trigger] batch[i]).message.offset@ == o),
        forall|o: OffsetView| m.contains_key(o) ==> #[trigger] registered(m, batch, k)[o] == m[o],
    decreases k,
{
    if k > 0 {
        lemma_registered(m, batch, k - 1);
        let prev = registered(m, batch, k - 1);
        let last = batch[k - 1].message.offset@;
        assert forall|o: OffsetView| #[trigger]
            registered(m, batch, k).contains_key(o) <==> (m.contains_key(o) || exists|i: int|
                0 <= i < k && (#[trigger] batch[i]).message.offset@ == o) by {
            if prev.contains_key(o) && !m.contains_key(o) {
                let i = choose|i: int| 0 <= i < k - 1 && (#[trigger] batch[i]).message.offset@ == o;
                assert(batch[i].message.offset@ == o);
            }
            if o == last {
                assert(batch[k - 1].message.offset@ == o);
            }
            if exists|i: int| 0 <= i < k && (#[trigger] batch[i]).message.offset@ == o {
                let i = choose|i: int| 0 <= i < k && (#[trigger] batch[i]).message.offset@ == o;
                if i < k - 1 {
                    assert(batch[i].message.offset@ == o);
                    assert(prev.contains_key(o));
                }
            }
        }
    }
}

/// Registers the messages of a batch with the tracker, in their order, each
/// with its promise, and hands back the messages and their offsets. Stops at
/// the first message whose offset is already in flight: the messages before it
/// stay registered, and the batch is lost.
pub fn track_batch<C>(tracker: &mut Tracker<C>, batch: Vec<Arrival<C>>) -> (r: Result<
    (Vec<Message>, Vec<Offset>),
    Error,
>)
    requires
        old(tracker).wf(),
    ensures
        final(tracker).wf(),
        final(tracker)@ == registered(old(tracker)@, batch@, first_clash(old(tracker)@, batch@, 0)),
        0 <= first_clash(old(tracker)@, batch@, 0) <= batch@.len(),
        r is Ok <==> first_clash(old(tracker)@, batch@, 0) == batch@.len(),
        r matches Ok(pair) ==> pair.0@ == messages_of(batch@) && views(pair.1@)
            == offsets_of(messages_of(batch@)),
        r matches Err(e) ==> e is DuplicateOffset,
{
    let ghost before = tracker@;
    proof {
        lemma_first_clash_bounds(before, batch@, 0);
    }
    let mut messages: Vec<Message> = Vec::new();
    let mut offsets: Vec<Offset> = Vec::new();
    for item in it: batch
        invariant
            it.seq() == batch@,
            before == old(tracker)@,
            tracker.wf(),
            tracker@ == registered(before, batch@, it.index() as int),
            first_clash(before, batch@, 0) == first_clash(before, batch@, it.index() as int),
            messages@ == messages_of(batch@.take(it.index() as int)),
            views(offsets@) == offsets_of(messages_of(batch@.take(it.index() as int))),
    {
        let ghost k = it.index() as int;
        let ghost offsets_before = offsets@;
        assert(item == batch@[k]);
        let offset = item.message.offset.clone();
        match tracker.insert(&item.message, item.completion) {
            Ok(()) => {
                assert(!clashes(before, batch@, k));
                assert(first_clash(before, batch@, k) == first_clash(before, batch@, k + 1));
            },
            Err(e) => {
                assert(clashes(before, batch@, k));
                assert(first_clash(before, batch@, k) == k);
                return Err(e);
            },
        }
        messages.push(item.message);
        offsets.push(offset);
        proof {
            assert(batch@.take(k + 1) =~= batch@.take(k).push(batch@[k]));
            assert(messages@ =~= messages_of(batch@.take(k + 1)));
            assert(views(offsets@) =~= views(offsets_before).push(offset@));
            assert(views(offsets@) =~= offsets_of(messages_of(batch@.take(k + 1))));
        }
    }
    proof {
        assert(batch@.take(batch@.len() as int) =~= batch@);
    }
    Ok((messages, offsets))
}

/// An earlier message of the outputs has the offset of the `j`-th.
pub open spec fn repeated(outputs: Seq<Message>, j: int) -> bool {
    exists|i: int| 0 <= i < j && (#[trigger] outputs[i]).offset@ == outputs[j].offset@
}

/// The entries in flight after the first `k` outputs of the transformer were
/// accounted for: every output beyond the first of its offset makes the entry
/// of that offset expect one more signal.
pub open spec fn fanned<C>(m: Entries<C>, outputs: Seq<Message>, k: int) -> Entries<C>
    decreases k,
{
    if k <= 0 {
        m
    } else if repeated(outputs, k - 1) {
        after_extend(fanned(m, outputs, k - 1), outputs[k - 1].offset@, 1)
    } else {
        fanned(m, outputs, k - 1)
    }
}

/// The `k`-th output cannot be accounted for: its entry expects as many
/// signals as can be counted.
pub open spec fn overflows<C>(m: Entries<C>, outputs: Seq<Message>, k: int) -> bool {
    &&& repeated(outputs, k)
    &&& fanned(m, outputs, k).contains_key(outputs[k].offset@)
    &&& fanned(m, outputs, k)[outputs[k].offset@].expected_signals == u32::MAX
}

/// The place of the first output that cannot be accounted for, or the number
/// of outputs where all can.
pub open spec fn first_overflow<C>(m: Entries<C>, outputs: Seq<Message>, from: int) -> int
    decreases outputs.len() - from,
{
    if from >= outputs.len() {
        outputs.len() as int
    } else if overflows(m, outputs, from) {
        from
    } else {
        first_overflow(m, outputs, from + 1)
    }
}

/// The first overflow lies at or behind the place from which it is sought,
/// and within the outputs or at their end.
pub proof fn lemma_first_overflow_bounds<C>(m: Entries<C>, outputs: Seq<Message>, from: int)
    requires
        0 <= from <= outputs.len(),
    ensures
        from <= first_overflow(m, outputs, from) <= outputs.len(),
    decreases outputs.len() - from,
{
    if from < outputs.len() && !overflows(m, outputs, from) {
        lemma_first_overflow_bounds(m, outputs, from + 1);
    }
}

fn is_repeated(outputs: &Vec<Message>, j: usize) -> (r: bool)
    requires
        j < outputs@.len(),
    ensures
        r == repeated(outputs@, j as int),
{
    let mut i: usize = 0;
    while i < j
        invariant
            i <= j < outputs@.len(),
            forall|h: int| 0 <= h < i ==> (#[trigger] outputs@[h]).offset@ != outputs@[j as int].offset@,
        decreases j - i,
    {
        if outputs[i].offset == outputs[j].offset {
            return true;
        }
        i += 1;
    }
    false
}

/// Accounts for what the transformer fanned out: where several outputs carry
/// the offset of one input, the entry of that offset expects one signal for
/// each of them. An output whose offset is not in flight is passed over. Stops
/// with an error at an output that would make an entry expect more signals
/// than can be counted.
pub fn account_fan_out<C>(tracker: &mut Tracker<C>, outputs: &Vec<Message>) -> (r: Result<(), Error>)
    requires
        old(tracker).wf(),
    ensures
        final(tracker).wf(),
        final(tracker)@ == fanned(old(tracker)@, outputs@, first_overflow(old(tracker)@, outputs@, 0)),
        0 <= first_overflow(old(tracker)@, outputs@, 0) <= outputs@.len(),
        r is Ok <==> first_overflow(old(tracker)@, outputs@, 0) == outputs@.len(),
        r matches Err(e) ==> e is TooManySignals,
{
    let ghost before = tracker@;
    proof {
        lemma_first_overflow_bounds(before, outputs@, 0);
    }
    let mut j: usize = 0;
    while j < outputs.len()
        invariant
            j <= outputs@.len(),
            before == old(tracker)@,
            tracker.wf(),
            tracker@ == fanned(before, outputs@, j as int),
            first_overflow(before, outputs@, 0) == first_overflow(before, outputs@, j as int),
        decreases outputs@.len() - j,
    {
        if is_repeated(outputs, j) {
            match tracker.extend(&outputs[j].offset, 1) {
                Ok(()) => {},
                Err(Error::TooManySignals) => {
                    assert(overflows(before, outputs@, j as int));
                    assert(first_overflow(before, outputs@, j as int) == j);
                    return Err(Error::TooManySignals);
                },
                Err(_) => {},
            }
        }
        assert(!overflows(before, outputs@, j as int));
        assert(first_overflow(before, outputs@, j as int) == first_overflow(
            before,
            outputs@,
            j + 1,
        ));
        j += 1;
    }
    Ok(())
}

/// A message with its lateness told against a watermark: late where its
/// event time lies before the watermark.
pub open spec fn stamped(m: Message, watermark: Timestamp) -> Message {
    Message { is_late: m.event_time.before(watermark), ..m }
}

/// Marks each message as late or not against the watermark of the source: a
/// message is late exactly where its event time lies before the watermark.
/// Nothing else of a message changes.
pub fn stamp_late(messages: Vec<Message>, watermark: Timestamp) -> (r: Vec<Message>)
    ensures
        r@ == messages@.map_values(|m: Message| stamped(m, watermark)),
        r@.len() == messages@.len(),
        forall|i: int|
            0 <= i < r@.len() ==> (#[trigger] r@[i]).is_late == messages@[i].event_time.before(
                watermark,
            ),
{
    let mut out: Vec<Message> = Vec::new();
    for m in it: messages
        invariant
            it.seq() == messages@,
            out@ == messages@.take(it.index() as int).map_values(|m: Message| stamped(m, watermark)),
    {
        let ghost k = it.index() as int;
        let mut m = m;
        m.is_late = m.event_time.is_before(&watermark);
        out.push(m);
        proof {
            assert(messages@.take(k + 1) =~= messages@.take(k).push(messages@[k]));
            assert(out@ =~= messages@.take(k + 1).map_values(|m: Message| stamped(m, watermark)));
        }
    }
    proof {
        assert(messages@.take(messages@.len() as int) =~= messages@);
    }
    out
}

/// A filter takes the last item of a sequence where the item passes, behind
/// what it takes of the items before it.
proof fn lemma_filter_step(s: Seq<Message>, pred: spec_fn(Message) -> bool)
    requires
        s.len() > 0,
    ensures
        s.filter(pred) == (if pred(s.last()) {
            s.drop_last().filter(pred).push(s.last())
        } else {
            s.drop_last().filter(pred)
        }),
{
    reveal(Seq::filter);
}

/// The messages to write: those that are not marked for discard, in their
/// order.
pub open spec fn kept(messages: Seq<Message>) -> Seq<Message> {
    messages.filter(|m: Message| !m.is_dropped())
}

/// The offsets of the messages that are marked for discard, in their order.
pub open spec fn dropped_offsets(messages: Seq<Message>) -> Seq<OffsetView> {
    offsets_of(messages.filter(|m: Message| m.is_dropped()))
}

/// Parts the messages to write from those that are marked for discard, and
/// hands back the former and the offsets of the latter.
pub fn split_dropped(messages: Vec<Message>) -> (r: (Vec<Message>, Vec<Offset>))
    ensures
        r.0@ == kept(messages@),
        views(r.1@) == dropped_offsets(messages@),
        forall|i: int| 0 <= i < r.0@.len() ==> !(#[trigger] r.0@[i]).is_dropped(),
{
    let mut keep: Vec<Message> = Vec::new();
    let mut dropped: Vec<Offset> = Vec::new();
    for m in it: messages
        invariant
            it.seq() == messages@,
            keep@ == kept(messages@.take(it.index() as int)),
            views(dropped@) == dropped_offsets(messages@.take(it.index() as int)),
    {
        let ghost k = it.index() as int;
        let ghost dropped_before = dropped@;
        let ghost shorter = messages@.take(k);
        let ghost longer = messages@.take(k + 1);
        proof {
            assert(m == messages@[k]);
            assert(longer.drop_last() =~= shorter);
            assert(longer.last() == m);
            lemma_filter_step(longer, |m: Message| !m.is_dropped());
            lemma_filter_step(longer, |m: Message| m.is_dropped());
        }
        if m.dropped() {
            let offset = m.offset.clone();
            dropped.push(offset);
            proof {
                assert(views(dropped@) =~= views(dropped_before).push(m.offset@));
                assert(longer.filter(|m: Message| m.is_dropped()) == shorter.filter(
                    |m: Message| m.is_dropped(),
                ).push(m));
                assert(dropped_offsets(longer) =~= dropped_offsets(shorter).push(m.offset@));
            }
        } else {
            keep.push(m);
        }
    }
    proof {
        assert(messages@.take(messages@.len() as int) =~= messages@);
        let keep_it = |m: Message| !m.is_dropped();
        assert forall|i: int| 0 <= i < keep@.len() implies !(#[trigger] keep@[i]).is_dropped() by {
            messages@.lemma_filter_pred(keep_it, i);
        }
    }
    (keep, dropped)
}

/// What the entries that left the tracker hold, each with its offset.
pub open spec fn leavers<C>(entries: Seq<TrackerEntry<C>>) -> Seq<(OffsetView, EntryState<C>)> {
    entries.map_values(|e: TrackerEntry<C>| (e.offset@, e.state()))
}

/// The entries in flight after the first `k` of the offsets were discarded.
pub open spec fn discarded<C>(m: Entries<C>, offsets: Seq<OffsetView>, k: int) -> Entries<C>
    decreases k,
{
    if k <= 0 {
        m
    } else {
        discarded(m, offsets, k - 1).remove(offsets[k - 1])
    }
}

/// The entries that leave as the first `k` of the offsets are discarded, in
/// the order of the offsets: one for each offset that was in flight when its
/// turn came, as a Nak.
pub open spec fn left_by_discard<C>(m: Entries<C>, offsets: Seq<OffsetView>, k: int) -> Seq<
    (OffsetView, EntryState<C>),
>
    decreases k,
{
    if k <= 0 {
        Seq::empty()
    } else {
        let before = discarded(m, offsets, k - 1);
        let o = offsets[k - 1];
        if before.contains_key(o) {
            left_by_discard(m, offsets, k - 1).push((o, before[o].discarded()))
        } else {
            left_by_discard(m, offsets, k - 1)
        }
    }
}

/// Discards the entries of the given offsets, as is done with a batch on
/// which the transformer failed, and hands back those that were in flight,
/// each as a Nak.
pub fn discard_all<C>(tracker: &mut Tracker<C>, offsets: &Vec<Offset>) -> (r: Vec<TrackerEntry<C>>)
    requires
        old(tracker).wf(),
    ensures
        final(tracker).wf(),
        final(tracker)@ == discarded(old(tracker)@, views(offsets@), offsets@.len() as int),
        leavers(r@) == left_by_discard(old(tracker)@, views(offsets@), offsets@.len() as int),
        forall|i: int| 0 <= i < offsets@.len() ==> !final(tracker)@.contains_key(#[trigger] offsets@[i]@),
{
    let ghost before = tracker@;
    let mut out: Vec<TrackerEntry<C>> = Vec::new();
    let mut k: usize = 0;
    while k < offsets.len()
        invariant
            k <= offsets@.len(),
            tracker.wf(),
            tracker@ == discarded(before, views(offsets@), k as int),
            leavers(out@) == left_by_discard(before, views(offsets@), k as int),
            forall|i: int| 0 <= i < k ==> !tracker@.contains_key(#[trigger] offsets@[i]@),
        decreases offsets@.len() - k,
    {
        let ghost out_before = out@;
        match tracker.discard(&offsets[k]) {
            Some(entry) => {
                out.push(entry);
                assert(leavers(out@) =~= leavers(out_before).push((entry.offset@, entry.state())));
            },
            None => {},
        }
        k += 1;
    }
    out
}

/// The entries in flight after an Ack was signalled for each of the first
/// `k` of the offsets.
pub open spec fn acknowledged<C>(m: Entries<C>, offsets: Seq<OffsetView>, k: int) -> Entries<C>
    decreases k,
{
    if k <= 0 {
        m
    } else {
        after_signal(acknowledged(m, offsets, k - 1), offsets[k - 1], ReadAck::Ack)
    }
}

/// The entries that leave as an Ack is signalled for each of the first `k` of
/// the offsets, in the order of the offsets: one for each signal that completed
/// an entry.
pub open spec fn left_by_acks<C>(m: Entries<C>, offsets: Seq<OffsetView>, k: int) -> Seq<
    (OffsetView, EntryState<C>),
>
    decreases k,
{
    if k <= 0 {
        Seq::empty()
    } else {
        let before = acknowledged(m, offsets, k - 1);
        let o = offsets[k - 1];
        match completed_by(before, o, ReadAck::Ack) {
            Some(e) => left_by_acks(m, offsets, k - 1).push((o, e)),
            None => left_by_acks(m, offsets, k - 1),
        }
    }
}

/// Signals an Ack for each of the given offsets, as is done for the messages
/// that are dropped in place of being written, and hands back the entries that
/// these signals completed.
pub fn acknowledge_all<C>(tracker: &mut Tracker<C>, offsets: &Vec<Offset>) -> (r: Vec<
    TrackerEntry<C>,
>)
    requires
        old(tracker).wf(),
    ensures
        final(tracker).wf(),
        final(tracker)@ == acknowledged(old(tracker)@, views(offsets@), offsets@.len() as int),
        leavers(r@) == left_by_acks(old(tracker)@, views(offsets@), offsets@.len() as int),
{
    let ghost before = tracker@;
    let mut out: Vec<TrackerEntry<C>> = Vec::new();
    let mut k: usize = 0;
    while k < offsets.len()
        invariant
            k <= offsets@.len(),
            tracker.wf(),
            tracker@ == acknowledged(before, views(offsets@), k as int),
            leavers(out@) == left_by_acks(before, views(offsets@), k as int),
        decreases offsets@.len() - k,
    {
        let ghost out_before = out@;
        match tracker.signal(&offsets[k], ReadAck::Ack) {
            Some(entry) => {
                out.push(entry);
                assert(leavers(out@) =~= leavers(out_before).push((entry.offset@, entry.state())));
            },
            None => {},
        }
        k += 1;
    }
    out
}

} // verus!
