//! The watermark generator of a source. It keeps, for every partition that
//! the source owns, the watermark that was last published for it, moves it
//! forward with the event times of each batch, and advances it by a fixed step
//! when the source has nothing to read. A partition's watermark never goes
//! back.

use crate::message::{Message, Timestamp};
use std::collections::HashMap;
use vstd::prelude::*;

verus! {

broadcast use vstd::std_specs::hash::group_hash_axioms;

/// A watermark to publish for one partition.
#[derive(Debug, Clone, Copy, PartialEq, Eq, Structural)]
pub struct PartitionMark {
    pub partition: u16,
    pub watermark: Timestamp,
}

/// The earliest event time among the messages of a batch that belong to
/// partition `p`, if there is such a message.
pub open spec fn earliest_in(batch: Seq<Message>, p: u16) -> Option<Timestamp>
    decreases batch.len(),
{
    if batch.len() == 0 {
        None
    } else {
        let before = earliest_in(batch.drop_last(), p);
        let m = batch.last();
        if m.offset@.partition_idx() != p {
            before
        } else {
            match before {
                None => Some(m.event_time),
                Some(t) => Some(t.spec_earlier(m.event_time)),
            }
        }
    }
}

/// The earliest event time of a partition in a batch is the event time of one
/// of the partition's messages, and none of them lies before it; there is none
/// exactly where the batch holds no message of the partition.
pub proof fn lemma_earliest_in(batch: Seq<Message>, p: u16)
    ensures
        earliest_in(batch, p) is None <==> forall|i: int|
            0 <= i < batch.len() ==> (#[trigger] batch[i]).offset@.partition_idx() != p,
        earliest_in(batch, p) matches Some(t) ==> {
            &&& exists|i: int|
                0 <= i < batch.len() && (#[trigger] batch[i]).offset@.partition_idx() == p
                    && batch[i].event_time == t
            &&& forall|i: int|
                0 <= i < batch.len() && (#[trigger] batch[i]).offset@.partition_idx() == p
                    ==> !batch[i].event_time.before(t)
        },
    decreases batch.len(),
{
    if batch.len() > 0 {
        let shorter = batch.drop_last();
        lemma_earliest_in(shorter, p);
        let m = batch.last();
        let n = batch.len() - 1;
        assert forall|i: int| 0 <= i < shorter.len() implies #[trigger] shorter[i] == batch[i] by {}
        if m.offset@.partition_idx() == p {
            assert(batch[n].offset@.partition_idx() == p);
            match earliest_in(shorter, p) {
                None => {
                    assert forall|i: int|
                        0 <= i < batch.len() && (#[trigger] batch[i]).offset@.partition_idx()
                            == p implies !batch[i].event_time.before(m.event_time) by {
                        if i < n {
                            assert(shorter[i].offset@.partition_idx() != p);
                        }
                    }
                },
                Some(t) => {
                    let w = choose|i: int|
                        0 <= i < shorter.len() && (#[trigger] shorter[i]).offset@.partition_idx() == p
                            && shorter[i].event_time == t;
                    assert(batch[w].offset@.partition_idx() == p && batch[w].event_time == t);
                    let e = t.spec_earlier(m.event_time);
                    assert forall|i: int|
                        0 <= i < batch.len() && (#[trigger] batch[i]).offset@.partition_idx()
                            == p implies !batch[i].event_time.before(e) by {
                        if i < n {
                            assert(shorter[i].offset@.partition_idx() == p);
                        }
                    }
                },
            }
        } else {
            if earliest_in(shorter, p) is None {
                assert forall|i: int| 0 <= i < batch.len() implies (
                #[trigger] batch[i]).offset@.partition_idx() != p by {
                    if i < n {
                        assert(shorter[i].offset@.partition_idx() != p);
                    }
                }
            } else {
                let t = earliest_in(shorter, p).unwrap();
                let w = choose|i: int|
                    0 <= i < shorter.len() && (#[trigger] shorter[i]).offset@.partition_idx() == p
                        && shorter[i].event_time == t;
                assert(batch[w].offset@.partition_idx() == p && batch[w].event_time == t);
                assert forall|i: int|
                    0 <= i < batch.len() && (#[trigger] batch[i]).offset@.partition_idx()
                        == p implies !batch[i].event_time.before(t) by {
                    if i < n {
                        assert(shorter[i].offset@.partition_idx() == p);
                    }
                }
            }
        }
    }
}

/// One of the first `k` items of `items` is `p`.
pub open spec fn among(items: Seq<u16>, k: int, p: u16) -> bool {
    exists|j: int| 0 <= j < k && j < items.len() && #[trigger] items[j] == p
}

/// The earliest of the watermarks of the given partitions; `origin` where
/// there is no partition.
pub open spec fn earliest_mark(marks: Map<u16, Timestamp>, partitions: Seq<u16>, origin: Timestamp)
    -> Timestamp
    decreases partitions.len(),
{
    if partitions.len() == 0 {
        origin
    } else if partitions.len() == 1 {
        marks[partitions[0]]
    } else {
        earliest_mark(marks, partitions.drop_last(), origin).spec_earlier(marks[partitions.last()])
    }
}

/// The earliest mark is the mark of one of the partitions, and none of their
/// marks lies before it.
pub proof fn lemma_earliest_mark(marks: Map<u16, Timestamp>, partitions: Seq<u16>, origin: Timestamp)
    requires
        partitions.len() > 0,
    ensures
        exists|j: int|
            0 <= j < partitions.len() && marks[#[trigger] partitions[j]] == earliest_mark(
                marks,
                partitions,
                origin,
            ),
        forall|j: int|
            0 <= j < partitions.len() ==> !marks[#[trigger] partitions[j]].before(
                earliest_mark(marks, partitions, origin),
            ),
    decreases partitions.len(),
{
    if partitions.len() == 1 {
        assert(marks[partitions[0]] == earliest_mark(marks, partitions, origin));
    } else {
        let shorter = partitions.drop_last();
        lemma_earliest_mark(marks, shorter, origin);
        let n = partitions.len() - 1;
        let e = earliest_mark(marks, shorter, origin);
        let r = earliest_mark(marks, partitions, origin);
        assert forall|j: int| 0 <= j < shorter.len() implies #[trigger] shorter[j] == partitions[j] by {}
        if marks[partitions[n]].before(e) {
            assert(marks[partitions[n]] == r);
        } else {
            let w = choose|j: int| 0 <= j < shorter.len() && marks[#[trigger] shorter[j]] == e;
            assert(marks[partitions[w]] == r);
        }
        assert forall|j: int| 0 <= j < partitions.len() implies !marks[#[trigger] partitions[j]].before(
            r,
        ) by {
            if j < n {
                assert(!marks[shorter[j]].before(e));
            }
        }
    }
}

/// A watermark after one idle step of `step` milliseconds.
pub open spec fn idle_advanced(watermark: Timestamp, step: u64) -> Timestamp {
    watermark.spec_later(watermark.spec_plus_millis(step))
}

/// A watermark after a batch whose earliest event time for the partition is
/// `earliest`: the event time lagged by `delay` milliseconds, unless the
/// watermark is already beyond that.
pub open spec fn batch_advanced(watermark: Timestamp, earliest: Option<Timestamp>, delay: u64)
    -> Timestamp {
    match earliest {
        Some(t) => watermark.spec_later(t.spec_minus_millis(delay)),
        None => watermark,
    }
}

/// Watermarks by partition, with the partitions in the order in which they
/// first came.
#[derive(Debug)]
pub struct PartitionMarks {
    marks: HashMap<u16, Timestamp>,
    partitions: Vec<u16>,
}

impl PartitionMarks {
    /// The watermark of each partition that has one.
    pub closed spec fn view(&self) -> Map<u16, Timestamp> {
        self.marks@
    }

    /// The partitions that have a watermark, in the order in which they
    /// first came.
    pub closed spec fn partitions(&self) -> Seq<u16> {
        self.partitions@
    }

    /// The partitions are those that have a watermark, each held once.
    pub closed spec fn wf(&self) -> bool {
        &&& self.partitions@.no_duplicates()
        &&& forall|p: u16| self.marks@.contains_key(p) <==> self.partitions@.contains(p)
    }

    /// What holds of all marks: the partitions are those that have a
    /// watermark.
    pub proof fn lemma_wf(&self)
        requires
            self.wf(),
        ensures
            self.partitions().no_duplicates(),
            forall|p: u16| self@.contains_key(p) <==> self.partitions().contains(p),
    {
    }

    pub fn new() -> (r: Self)
        ensures
            r.wf(),
            r@ == Map::<u16, Timestamp>::empty(),
            r.partitions() == Seq::<u16>::empty(),
    {
        PartitionMarks { marks: HashMap::new(), partitions: Vec::new() }
    }

    /// The watermark of a partition, if it has one.
    pub fn get(&self, p: u16) -> (r: Option<Timestamp>)
        ensures
            r == self@.get(p),
    {
        match self.marks.get(&p) {
            Some(t) => Some(*t),
            None => None,
        }
    }

    /// Number of partitions that have a watermark.
    pub fn len(&self) -> (r: usize)
        ensures
            r == self.partitions().len(),
    {
        self.partitions.len()
    }

    /// The `k`-th partition that came.
    pub fn partition(&self, k: usize) -> (r: u16)
        requires
            self.wf(),
            k < self.partitions().len(),
        ensures
            r == self.partitions()[k as int],
            self@.contains_key(r),
    {
        assert(self.partitions@.contains(self.partitions@[k as int]));
        self.partitions[k]
    }

    /// Gives a partition its watermark.
    pub fn set(&mut self, p: u16, watermark: Timestamp)
        requires
            old(self).wf(),
        ensures
            final(self).wf(),
            final(self)@ == old(self)@.insert(p, watermark),
            final(self).partitions() == (if old(self)@.contains_key(p) {
                old(self).partitions()
            } else {
                old(self).partitions().push(p)
            }),
    {
        let ghost before = *self;
        let known = self.marks.insert(p, watermark);
        if known.is_none() {
            self.partitions.push(p);
            proof {
                let n = before.partitions@.len() as int;
                assert forall|i: int, j: int|
                    0 <= i < self.partitions@.len() && 0 <= j < self.partitions@.len() && i
                        != j implies self.partitions@[i] != self.partitions@[j] by {
                    if i < n {
                        assert(before.partitions@.contains(before.partitions@[i]));
                    }
                    if j < n {
                        assert(before.partitions@.contains(before.partitions@[j]));
                    }
                }
                assert forall|q: u16| self.marks@.contains_key(q) <==> self.partitions@.contains(
                    q,
                ) by {
                    if before.partitions@.contains(q) {
                        let j = choose|j: int|
                            0 <= j < before.partitions@.len() && before.partitions@[j] == q;
                        assert(self.partitions@[j] == q);
                    }
                    if q == p {
                        assert(self.partitions@[n] == p);
                    }
                    if self.partitions@.contains(q) && q != p {
                        let j = choose|j: int|
                            0 <= j < self.partitions@.len() && self.partitions@[j] == q;
                        assert(before.partitions@[j] == q);
                    }
                }
            }
        } else {
            proof {
                assert forall|q: u16| self.marks@.contains_key(q) <==> self.partitions@.contains(
                    q,
                ) by {
                    assert(before.marks@.contains_key(q) <==> before.partitions@.contains(q));
                }
            }
        }
    }
}

/// The earliest event time of each partition in a batch.
fn batch_minimums(batch: &Vec<Message>) -> (r: PartitionMarks)
    ensures
        r.wf(),
        forall|p: u16| r@.get(p) == earliest_in(batch@, p),
{
    let mut mins = PartitionMarks::new();
    let mut i: usize = 0;
    while i < batch.len()
        invariant
            i <= batch.len(),
            mins.wf(),
            forall|p: u16| mins@.get(p) == earliest_in(batch@.take(i as int), p),
        decreases batch.len() - i,
    {
        let p = batch[i].offset.partition_idx();
        let t = batch[i].event_time;
        let ghost before = mins@;
        let next = match mins.get(p) {
            Some(e) => e.earlier(t),
            None => t,
        };
        mins.set(p, next);
        proof {
            assert(batch@.take(i + 1).drop_last() =~= batch@.take(i as int));
            assert(batch@.take(i + 1).last() == batch@[i as int]);
            assert forall|q: u16| mins@.get(q) == earliest_in(batch@.take(i + 1), q) by {
                assert(before.get(q) == earliest_in(batch@.take(i as int), q));
            }
        }
        i += 1;
    }
    assert(batch@.take(i as int) =~= batch@);
    mins
}

/// The partitions of a batch: those that have a message in it.
pub open spec fn partitions_in(batch: Seq<Message>) -> Set<u16> {
    Set::new(|p: u16| earliest_in(batch, p) is Some)
}

/// The publications name each of the partitions in `due` once,
/// and give each the watermark that `marks` has for it.
pub open spec fn publishes(
    publications: Seq<PartitionMark>,
    marks: Map<u16, Timestamp>,
    due: Set<u16>,
) -> bool {
    &&& forall|j: int|
        0 <= j < publications.len() ==> due.contains((#[trigger] publications[j]).partition)
            && marks.contains_key(publications[j].partition) && publications[j].watermark
            == marks[publications[j].partition]
    &&& forall|i: int, j: int|
        0 <= i < j < publications.len() ==> (#[trigger] publications[i]).partition != (
        #[trigger] publications[j]).partition
    &&& forall|p: u16| #[trigger]
        due.contains(p) ==> exists|j: int|
            0 <= j < publications.len() && (#[trigger] publications[j]).partition == p
}

/// What a batch does to a generator: `post` is `pre` after the batch, and
/// `publications` is what is to be published for it.
pub open spec fn advanced_by_batch(
    pre: SourceWatermark,
    batch: Seq<Message>,
    post: SourceWatermark,
    publications: Seq<PartitionMark>,
) -> bool {
    &&& post.wf()
    &&& post.configured_as(&pre)
    &&& forall|p: u16|
        post.watermark_of(p) == batch_advanced(pre.watermark_of(p), earliest_in(batch, p), pre.delay())
    &&& forall|p: u16| #[trigger]
        post@.contains_key(p) <==> (pre@.contains_key(p) || earliest_in(batch, p) is Some)
    &&& forall|p: u16| !post.watermark_of(p).before(pre.watermark_of(p))
    &&& publishes(publications, post@, partitions_in(batch))
}

/// What an idle step does to the watermarks of a generator: `post` is `pre`
/// after the watermarks of the given partitions were advanced.
pub open spec fn idled(pre: SourceWatermark, partitions: Seq<u16>, post: SourceWatermark) -> bool {
    &&& post.wf()
    &&& post.configured_as(&pre)
    &&& forall|p: u16|
        post.watermark_of(p) == (if partitions.contains(p) {
            idle_advanced(pre.watermark_of(p), pre.idle_step())
        } else {
            pre.watermark_of(p)
        })
    &&& forall|p: u16| #[trigger]
        post@.contains_key(p) <==> (pre@.contains_key(p) || partitions.contains(p))
    &&& forall|p: u16| !post.watermark_of(p).before(pre.watermark_of(p))
}

/// What an idle step does to a generator: `post` is `pre` after the
/// watermarks of the given partitions were advanced, and `publications` is
/// what is to be published for it.
pub open spec fn advanced_by_idling(
    pre: SourceWatermark,
    partitions: Seq<u16>,
    post: SourceWatermark,
    publications: Seq<PartitionMark>,
) -> bool {
    &&& idled(pre, partitions, post)
    &&& publishes(publications, post@, partitions.to_set())
}

/// The watermark generator of a source.
#[derive(Debug)]
pub struct SourceWatermark {
    delay: u64,
    idle_step: u64,
    origin: Timestamp,
    published: PartitionMarks,
}

impl SourceWatermark {
    /// Milliseconds by which a watermark lags behind the event times.
    pub closed spec fn delay(&self) -> u64 {
        self.delay
    }

    /// Milliseconds by which a watermark advances when the source is idle.
    pub closed spec fn idle_step(&self) -> u64 {
        self.idle_step
    }

    /// The watermark of a partition for which nothing was published yet.
    pub closed spec fn origin(&self) -> Timestamp {
        self.origin
    }

    /// The watermark that was last published for each partition.
    pub closed spec fn view(&self) -> Map<u16, Timestamp> {
        self.published@
    }

    /// The partitions for which a watermark was published, in the order in
    /// which they first came.
    pub closed spec fn partitions(&self) -> Seq<u16> {
        self.published.partitions()
    }

    /// The partitions are those that have a watermark, each held once.
    pub closed spec fn wf(&self) -> bool {
        self.published.wf()
    }

    /// The watermark of a partition.
    pub open spec fn watermark_of(&self, p: u16) -> Timestamp {
        if self@.contains_key(p) {
            self@[p]
        } else {
            self.origin()
        }
    }

    /// The watermark of the source: the earliest of the watermarks of its
    /// partitions.
    pub open spec fn source_watermark(&self) -> Timestamp {
        earliest_mark(self@, self.partitions(), self.origin())
    }

    /// Same settings as `other`.
    pub open spec fn configured_as(&self, other: &SourceWatermark) -> bool {
        &&& self.delay() == other.delay()
        &&& self.idle_step() == other.idle_step()
        &&& self.origin() == other.origin()
    }

    /// What holds of every generator: the partitions are those that have a
    /// watermark.
    pub proof fn lemma_wf(&self)
        requires
            self.wf(),
        ensures
            self.partitions().no_duplicates(),
            forall|p: u16| self@.contains_key(p) <==> self.partitions().contains(p),
    {
        self.published.lemma_wf();
    }

    /// A generator that has published nothing. `delay` and `idle_step` are in
    /// milliseconds.
    pub fn new(delay: u64, idle_step: u64, origin: Timestamp) -> (r: Self)
        ensures
            r.wf(),
            r.delay() == delay,
            r.idle_step() == idle_step,
            r.origin() == origin,
            r@ == Map::<u16, Timestamp>::empty(),
            r.partitions() == Seq::<u16>::empty(),
    {
        SourceWatermark { delay, idle_step, origin, published: PartitionMarks::new() }
    }

    /// The watermark of a partition.
    pub fn partition_watermark(&self, p: u16) -> (r: Timestamp)
        ensures
            r == self.watermark_of(p),
    {
        match self.published.get(p) {
            Some(t) => t,
            None => self.origin,
        }
    }

    /// The watermark of the source: the earliest of the watermarks of its
    /// partitions, or the origin where nothing was published yet.
    pub fn fetch_source_watermark(&self) -> (r: Timestamp)
        requires
            self.wf(),
        ensures
            r == self.source_watermark(),
    {
        if self.published.len() == 0 {
            return self.origin;
        }
        let mut r = self.partition_watermark(self.published.partition(0));
        assert(self.partitions().take(1).drop_last() =~= self.partitions().take(0));
        let mut k: usize = 1;
        while k < self.published.len()
            invariant
                self.wf(),
                1 <= k <= self.partitions().len(),
                r == earliest_mark(self@, self.partitions().take(k as int), self.origin()),
            decreases self.partitions().len() - k,
        {
            let t = self.partition_watermark(self.published.partition(k));
            assert(self.partitions().take(k + 1).drop_last() =~= self.partitions().take(k as int));
            r = r.earlier(t);
            k += 1;
        }
        assert(self.partitions().take(k as int) =~= self.partitions());
        r
    }

    /// Moves the watermarks forward with a batch that was read. For every
    /// partition that has a message in the batch, the watermark becomes the
    /// earliest event time of the partition's messages, lagged by the delay,
    /// unless it is already beyond that. Returns what is to be published: one
    /// watermark for each of those partitions.
    pub fn generate_and_publish_source_watermark(&mut self, batch: &Vec<Message>) -> (r: Vec<
        PartitionMark,
    >)
        requires
            old(self).wf(),
        ensures
            advanced_by_batch(*old(self), batch@, *final(self), r@),
    {
        let ghost before = *self;
        let mins = batch_minimums(batch);
        let mut out: Vec<PartitionMark> = Vec::new();
        let mut k: usize = 0;
        while k < mins.len()
            invariant
                k <= mins.partitions().len(),
                mins.wf(),
                forall|p: u16| mins@.get(p) == earliest_in(batch@, p),
                before.wf(),
                self.wf(),
                self.configured_as(&before),
                forall|p: u16|
                    among(mins.partitions(), k as int, p) ==> self@.contains_key(p) && self@[p]
                        == batch_advanced(
                        before.watermark_of(p),
                        earliest_in(batch@, p),
                        before.delay(),
                    ),
                forall|p: u16| !among(mins.partitions(), k as int, p) ==> self@.get(p) == before@.get(p),
                out@.len() == k,
                forall|j: int|
                    0 <= j < k ==> (#[trigger] out@[j]).partition == mins.partitions()[j]
                        && out@[j].watermark == self@[out@[j].partition],
            decreases mins.partitions().len() - k,
        {
            let p = mins.partition(k);
            let ghost during = *self;
            proof {
                mins.lemma_wf();
                if among(mins.partitions(), k as int, p) {
                    let j = choose|j: int|
                        0 <= j < k && j < mins.partitions().len() && mins.partitions()[j] == p;
                    assert(mins.partitions()[j] != mins.partitions()[k as int]);
                }
            }
            assert(!among(mins.partitions(), k as int, p));
            assert(self@.get(p) == before@.get(p));
            assert(mins@.get(p) == earliest_in(batch@, p));
            let earliest = match mins.get(p) {
                Some(t) => t,
                None => self.origin,
            };
            let next = self.partition_watermark(p).later(earliest.minus_millis(self.delay));
            assert(next == batch_advanced(
                before.watermark_of(p),
                earliest_in(batch@, p),
                before.delay(),
            ));
            self.published.set(p, next);
            out.push(PartitionMark { partition: p, watermark: next });
            let ghost done = k as int;
            k += 1;
            proof {
                assert forall|q: u16| among(mins.partitions(), k as int, q) <==> among(
                    mins.partitions(),
                    done,
                    q,
                ) || q == p by {
                    if among(mins.partitions(), k as int, q) {
                        let j = choose|j: int|
                            0 <= j < k && j < mins.partitions().len() && mins.partitions()[j] == q;
                        if j < done {
                            assert(among(mins.partitions(), done, q));
                        }
                    }
                    if q == p {
                        assert(mins.partitions()[done] == p);
                    }
                    if among(mins.partitions(), done, q) {
                        let j = choose|j: int|
                            0 <= j < done && j < mins.partitions().len() && mins.partitions()[j] == q;
                        assert(mins.partitions()[j] == q);
                    }
                }
                assert forall|q: u16| among(mins.partitions(), k as int, q) implies self@.contains_key(
                    q,
                ) && self@[q] == batch_advanced(
                    before.watermark_of(q),
                    earliest_in(batch@, q),
                    before.delay(),
                ) by {
                    if q != p {
                        assert(among(mins.partitions(), done, q));
                        assert(during@.contains_key(q));
                    }
                }
                assert forall|q: u16| !among(mins.partitions(), k as int, q) implies self@.get(q)
                    == before@.get(q) by {
                    assert(!among(mins.partitions(), done, q));
                    assert(during@.get(q) == before@.get(q));
                }
                assert forall|j: int| 0 <= j < k implies (#[trigger] out@[j]).partition
                    == mins.partitions()[j] && out@[j].watermark == self@[out@[j].partition] by {
                    if j < done {
                        assert(mins.partitions()[j] != mins.partitions()[done]);
                        assert(among(mins.partitions(), done, mins.partitions()[j]));
                    }
                }
            }
        }
        proof {
            mins.lemma_wf();
            assert forall|p: u16| among(mins.partitions(), k as int, p) <==> earliest_in(batch@, p)
                is Some by {
                assert(mins@.get(p) == earliest_in(batch@, p));
                assert(mins@.contains_key(p) <==> mins.partitions().contains(p));
                if mins.partitions().contains(p) {
                    let j = choose|j: int| 0 <= j < mins.partitions().len() && mins.partitions()[j] == p;
                    assert(mins.partitions()[j] == p);
                    assert(among(mins.partitions(), k as int, p));
                }
                if among(mins.partitions(), k as int, p) {
                    let j = choose|j: int|
                        0 <= j < k && j < mins.partitions().len() && mins.partitions()[j] == p;
                    assert(mins.partitions().contains(p));
                }
            }
            assert forall|p: u16|
                self.watermark_of(p) == batch_advanced(
                    before.watermark_of(p),
                    earliest_in(batch@, p),
                    before.delay(),
                ) by {
                if !among(mins.partitions(), k as int, p) {
                    assert(self@.get(p) == before@.get(p));
                }
            }
            assert forall|p: u16| #[trigger]
                self@.contains_key(p) <==> (before@.contains_key(p) || earliest_in(batch@, p)
                    is Some) by {
                if !among(mins.partitions(), k as int, p) {
                    assert(self@.get(p) == before@.get(p));
                }
            }
            let due = partitions_in(batch@);
            assert forall|j: int| 0 <= j < out@.len() implies due.contains((#[trigger] out@[j]).partition)
                && self@.contains_key(out@[j].partition) && out@[j].watermark
                == self@[out@[j].partition] by {
                assert(among(mins.partitions(), k as int, mins.partitions()[j]));
            }
            assert forall|p: u16| #[trigger] due.contains(p) implies exists|j: int|
                0 <= j < out@.len() && (#[trigger] out@[j]).partition == p by {
                assert(earliest_in(batch@, p) is Some);
                assert(among(mins.partitions(), k as int, p));
                let j = choose|j: int|
                    0 <= j < k && j < mins.partitions().len() && mins.partitions()[j] == p;
                assert(out@[j].partition == p);
            }
            assert(publishes(out@, self@, due));
        }
        out
    }

    /// Advances the watermark of every partition that the source owns by the
    /// idle step, as is done when a read came back empty, so that a partition
    /// without traffic does not hold back what lies downstream. Returns what
    /// is to be published: one watermark for each of the partitions.
    pub fn publish_source_idle_watermark(&mut self, partitions: &Vec<u16>) -> (r: Vec<
        PartitionMark,
    >)
        requires
            old(self).wf(),
        ensures
            advanced_by_idling(*old(self), partitions@, *final(self), r@),
    {
        let ghost before = *self;
        let mut out: Vec<PartitionMark> = Vec::new();
        let mut k: usize = 0;
        while k < partitions.len()
            invariant
                k <= partitions@.len(),
                before.wf(),
                self.wf(),
                self.configured_as(&before),
                forall|p: u16|
                    among(partitions@, k as int, p) ==> self@.contains_key(p) && self@[p]
                        == idle_advanced(before.watermark_of(p), before.idle_step()),
                forall|p: u16| !among(partitions@, k as int, p) ==> self@.get(p) == before@.get(p),
                forall|j: int|
                    0 <= j < out@.len() ==> among(partitions@, k as int, (#[trigger] out@[j]).partition)
                        && out@[j].watermark == self@[out@[j].partition],
                forall|i: int, j: int|
                    0 <= i < j < out@.len() ==> (#[trigger] out@[i]).partition != (
                    #[trigger] out@[j]).partition,
                forall|p: u16|
                    among(partitions@, k as int, p) ==> exists|j: int|
                        0 <= j < out@.len() && (#[trigger] out@[j]).partition == p,
            decreases partitions@.len() - k,
        {
            let p = partitions[k];
            let ghost during = *self;
            let ghost out_before = out@;
            let ghost done = k as int;
            let seen = self.occurs_before(partitions, k);
            if !seen {
                assert(self@.get(p) == before@.get(p));
                let current = self.partition_watermark(p);
                let next = current.later(current.plus_millis(self.idle_step));
                self.published.set(p, next);
                out.push(PartitionMark { partition: p, watermark: next });
            }
            k += 1;
            proof {
                assert forall|q: u16| among(partitions@, k as int, q) <==> among(partitions@, done, q)
                    || q == p by {
                    if among(partitions@, k as int, q) {
                        let j = choose|j: int| 0 <= j < k && j < partitions@.len() && partitions@[j] == q;
                        if j < done {
                            assert(among(partitions@, done, q));
                        }
                    }
                    if q == p {
                        assert(partitions@[done] == p);
                    }
                    if among(partitions@, done, q) {
                        let j = choose|j: int|
                            0 <= j < done && j < partitions@.len() && partitions@[j] == q;
                        assert(partitions@[j] == q);
                    }
                }
                assert forall|q: u16| among(partitions@, k as int, q) implies self@.contains_key(q)
                    && self@[q] == idle_advanced(before.watermark_of(q), before.idle_step()) by {
                    if q != p {
                        assert(among(partitions@, done, q));
                        assert(during@.contains_key(q));
                    } else if seen {
                        assert(among(partitions@, done, q));
                        assert(during@.contains_key(q));
                    }
                }
                assert forall|q: u16| !among(partitions@, k as int, q) implies self@.get(q)
                    == before@.get(q) by {
                    assert(!among(partitions@, done, q));
                    assert(during@.get(q) == before@.get(q));
                }
                assert forall|j: int| 0 <= j < out@.len() implies among(
                    partitions@,
                    k as int,
                    (#[trigger] out@[j]).partition,
                ) && out@[j].watermark == self@[out@[j].partition] by {
                    if j < out_before.len() {
                        assert(out@[j] == out_before[j]);
                        assert(among(partitions@, done, out_before[j].partition));
                    }
                }
                assert forall|i: int, j: int| 0 <= i < j < out@.len() implies (
                #[trigger] out@[i]).partition != (#[trigger] out@[j]).partition by {
                    assert(out@[i] == out_before[i]);
                    assert(among(partitions@, done, out_before[i].partition));
                    if j < out_before.len() {
                        assert(out@[j] == out_before[j]);
                    }
                }
                assert forall|q: u16| among(partitions@, k as int, q) implies exists|j: int|
                    0 <= j < out@.len() && (#[trigger] out@[j]).partition == q by {
                    if among(partitions@, done, q) {
                        let j = choose|j: int|
                            0 <= j < out_before.len() && (#[trigger] out_before[j]).partition == q;
                        assert(out@[j].partition == q);
                    } else {
                        assert(q == p && !seen);
                        assert(out@[out@.len() - 1].partition == q);
                    }
                }
            }
        }
        proof {
            assert forall|p: u16| among(partitions@, k as int, p) <==> partitions@.contains(p) by {
                if partitions@.contains(p) {
                    let j = choose|j: int| 0 <= j < partitions@.len() && partitions@[j] == p;
                    assert(partitions@[j] == p);
                    assert(among(partitions@, k as int, p));
                }
                if among(partitions@, k as int, p) {
                    let j = choose|j: int| 0 <= j < k && j < partitions@.len() && partitions@[j] == p;
                    assert(partitions@.contains(p));
                }
            }
            assert forall|p: u16|
                self.watermark_of(p) == (if partitions@.contains(p) {
                    idle_advanced(before.watermark_of(p), before.idle_step())
                } else {
                    before.watermark_of(p)
                }) by {
                if !among(partitions@, k as int, p) {
                    assert(self@.get(p) == before@.get(p));
                }
            }
            assert forall|p: u16| #[trigger]
                self@.contains_key(p) <==> (before@.contains_key(p) || partitions@.contains(p)) by {
                if !among(partitions@, k as int, p) {
                    assert(self@.get(p) == before@.get(p));
                    assert(!partitions@.contains(p));
                } else {
                    assert(partitions@.contains(p));
                }
            }
            let due = partitions@.to_set();
            assert forall|p: u16| #[trigger] due.contains(p) implies exists|j: int|
                0 <= j < out@.len() && (#[trigger] out@[j]).partition == p by {
                assert(partitions@.contains(p));
                assert(among(partitions@, k as int, p));
            }
            assert(publishes(out@, self@, due));
        }
        out
    }

    fn occurs_before(&self, items: &Vec<u16>, k: usize) -> (r: bool)
        requires
            k < items@.len(),
        ensures
            r == among(items@, k as int, items@[k as int]),
    {
        let mut j: usize = 0;
        while j < k
            invariant
                j <= k < items@.len(),
                !among(items@, j as int, items@[k as int]),
            decreases k - j,
        {
            if items[j] == items[k] {
                assert(among(items@, k as int, items@[k as int]));
                return true;
            }
            j += 1;
            assert forall|i: int| 0 <= i < j && i < items@.len() implies #[trigger] items@[i]
                != items@[k as int] by {
                if i < j - 1 {
                    assert(!among(items@, j - 1, items@[k as int]));
                }
            }
        }
        false
    }
}

} // verus!
