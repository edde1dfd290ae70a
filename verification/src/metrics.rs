//! What the forwarder reports of its reads and of its acknowledgements: the
//! metrics to update, with their values. Exposing them is left to whoever
//! runs the forwarder.

use crate::message::Message;
use vstd::prelude::*;

verus! {

/// The metrics of the forwarder.
#[derive(Debug, Clone, Copy, PartialEq, Eq, Structural)]
pub enum Metric {
    ReadTotal,
    ReadTime,
    ReadBatchSize,
    ReadBytesTotal,
    DataReadTotal,
    DataReadBytesTotal,
    ReadProcessingTime,
    AckTotal,
    AckTime,
    AckProcessingTime,
    E2eTime,
}

/// The labels that go with a metric.
#[derive(Debug, Clone, Copy, PartialEq, Eq, Structural)]
pub enum LabelSchema {
    /// The labels of a monovertex: no partition.
    Monovertex,
    /// The labels of a vertex of a pipeline: with the partition, which is
    /// named after the vertex.
    Pipeline,
}

/// What is done to a metric.
#[derive(Debug, Clone, Copy, PartialEq, Eq, Structural)]
pub enum Update {
    /// A counter goes up by this much.
    Count(u64),
    /// A gauge is set to this.
    Gauge(i64),
    /// A histogram observes this many microseconds.
    Observe(u128),
}

/// One update of one metric.
#[derive(Debug, Clone, Copy, PartialEq, Eq, Structural)]
pub struct MetricUpdate {
    pub metric: Metric,
    pub labels: LabelSchema,
    pub update: Update,
}

impl Metric {
    /// The name under which the metric is exposed.
    pub fn name(&self) -> (r: &'static str)
        ensures
            r@ == (match *self {
                Metric::ReadTotal => "read_total"@,
                Metric::ReadTime => "read_time"@,
                Metric::ReadBatchSize => "read_batch_size"@,
                Metric::ReadBytesTotal => "read_bytes_total"@,
                Metric::DataReadTotal => "data_read_total"@,
                Metric::DataReadBytesTotal => "data_read_bytes_total"@,
                Metric::ReadProcessingTime => "read_processing_time"@,
                Metric::AckTotal => "ack_total"@,
                Metric::AckTime => "ack_time"@,
                Metric::AckProcessingTime => "ack_processing_time"@,
                Metric::E2eTime => "e2e_time"@,
            }),
    {
        match self {
            Metric::ReadTotal => "read_total",
            Metric::ReadTime => "read_time",
            Metric::ReadBatchSize => "read_batch_size",
            Metric::ReadBytesTotal => "read_bytes_total",
            Metric::DataReadTotal => "data_read_total",
            Metric::DataReadBytesTotal => "data_read_bytes_total",
            Metric::ReadProcessingTime => "read_processing_time",
            Metric::AckTotal => "ack_total",
            Metric::AckTime => "ack_time",
            Metric::AckProcessingTime => "ack_processing_time",
            Metric::E2eTime => "e2e_time",
        }
    }
}

/// A count as the value of a gauge: the count itself, or the greatest value
/// of a gauge where the count is beyond it.
pub open spec fn gauge_of(n: usize) -> i64 {
    if n <= i64::MAX {
        n as i64
    } else {
        i64::MAX
    }
}

/// The updates that report a read on a monovertex.
pub open spec fn monovertex_read_updates(n: usize, elapsed_micros: u128) -> Seq<MetricUpdate> {
    seq![
        MetricUpdate {
            metric: Metric::ReadTotal,
            labels: LabelSchema::Monovertex,
            update: Update::Count(n as u64),
        },
        MetricUpdate {
            metric: Metric::ReadTime,
            labels: LabelSchema::Monovertex,
            update: Update::Observe(elapsed_micros),
        },
        MetricUpdate {
            metric: Metric::ReadBatchSize,
            labels: LabelSchema::Monovertex,
            update: Update::Gauge(gauge_of(n)),
        },
    ]
}

/// The updates that report a read on a vertex of a pipeline.
pub open spec fn pipeline_read_updates(n: usize, bytes: usize, elapsed_micros: u128) -> Seq<
    MetricUpdate,
> {
    seq![
        MetricUpdate {
            metric: Metric::ReadBatchSize,
            labels: LabelSchema::Pipeline,
            update: Update::Gauge(gauge_of(n)),
        },
        MetricUpdate {
            metric: Metric::ReadTotal,
            labels: LabelSchema::Pipeline,
            update: Update::Count(n as u64),
        },
        MetricUpdate {
            metric: Metric::DataReadTotal,
            labels: LabelSchema::Pipeline,
            update: Update::Count(n as u64),
        },
        MetricUpdate {
            metric: Metric::ReadBytesTotal,
            labels: LabelSchema::Pipeline,
            update: Update::Count(bytes as u64),
        },
        MetricUpdate {
            metric: Metric::DataReadBytesTotal,
            labels: LabelSchema::Pipeline,
            update: Update::Count(bytes as u64),
        },
        MetricUpdate {
            metric: Metric::ReadProcessingTime,
            labels: LabelSchema::Pipeline,
            update: Update::Observe(elapsed_micros),
        },
    ]
}

/// The updates that report a read of `n` messages with `bytes` bytes of
/// payload, which took `elapsed_micros` microseconds.
pub open spec fn read_updates(mono_vertex: bool, n: usize, bytes: usize, elapsed_micros: u128) -> Seq<
    MetricUpdate,
> {
    if mono_vertex {
        monovertex_read_updates(n, elapsed_micros)
    } else {
        pipeline_read_updates(n, bytes, elapsed_micros)
    }
}

fn gauge(n: usize) -> (r: i64)
    ensures
        r == gauge_of(n),
{
    if n as u64 <= i64::MAX as u64 {
        n as i64
    } else {
        i64::MAX
    }
}

fn one(metric: Metric, labels: LabelSchema, update: Update) -> (r: MetricUpdate)
    ensures
        r == (MetricUpdate { metric, labels, update }),
{
    MetricUpdate { metric, labels, update }
}

/// The updates that report a read: on a monovertex the number of messages,
/// the time of the read and the size of the batch; on a vertex of a pipeline
/// the size of the batch, the number of messages and of bytes, both also as
/// data, and the time of the read.
pub fn send_read_metrics(mono_vertex: bool, n: usize, msgs_bytes: usize, elapsed_micros: u128) -> (r:
    Vec<MetricUpdate>)
    ensures
        r@ == read_updates(mono_vertex, n, msgs_bytes, elapsed_micros),
{
    let mut out: Vec<MetricUpdate> = Vec::new();
    if mono_vertex {
        let labels = LabelSchema::Monovertex;
        out.push(one(Metric::ReadTotal, labels, Update::Count(n as u64)));
        out.push(one(Metric::ReadTime, labels, Update::Observe(elapsed_micros)));
        out.push(one(Metric::ReadBatchSize, labels, Update::Gauge(gauge(n))));
        assert(out@ =~= monovertex_read_updates(n, elapsed_micros));
    } else {
        let labels = LabelSchema::Pipeline;
        out.push(one(Metric::ReadBatchSize, labels, Update::Gauge(gauge(n))));
        out.push(one(Metric::ReadTotal, labels, Update::Count(n as u64)));
        out.push(one(Metric::DataReadTotal, labels, Update::Count(n as u64)));
        out.push(one(Metric::ReadBytesTotal, labels, Update::Count(msgs_bytes as u64)));
        out.push(one(Metric::DataReadBytesTotal, labels, Update::Count(msgs_bytes as u64)));
        out.push(one(Metric::ReadProcessingTime, labels, Update::Observe(elapsed_micros)));
        assert(out@ =~= pipeline_read_updates(n, msgs_bytes, elapsed_micros));
    }
    out
}

/// The updates that report the acknowledgement of a batch of `n` messages,
/// which took `ack_micros` microseconds, `e2e_micros` microseconds after the
/// batch was read.
pub open spec fn ack_updates(mono_vertex: bool, n: usize, ack_micros: u128, e2e_micros: u128) -> Seq<
    MetricUpdate,
> {
    if mono_vertex {
        seq![
            MetricUpdate {
                metric: Metric::AckTime,
                labels: LabelSchema::Monovertex,
                update: Update::Observe(ack_micros),
            },
            MetricUpdate {
                metric: Metric::AckTotal,
                labels: LabelSchema::Monovertex,
                update: Update::Count(n as u64),
            },
            MetricUpdate {
                metric: Metric::E2eTime,
                labels: LabelSchema::Monovertex,
                update: Update::Observe(e2e_micros),
            },
        ]
    } else {
        seq![
            MetricUpdate {
                metric: Metric::AckProcessingTime,
                labels: LabelSchema::Pipeline,
                update: Update::Observe(ack_micros),
            },
            MetricUpdate {
                metric: Metric::AckTotal,
                labels: LabelSchema::Pipeline,
                update: Update::Count(n as u64),
            },
            MetricUpdate {
                metric: Metric::E2eTime,
                labels: LabelSchema::Pipeline,
                update: Update::Observe(e2e_micros),
            },
        ]
    }
}

/// The updates that report the acknowledgement of a batch: the time of the
/// acknowledgement, the number of messages, and the time since the batch was
/// read.
pub fn send_ack_metrics(mono_vertex: bool, n: usize, ack_micros: u128, e2e_micros: u128) -> (r: Vec<
    MetricUpdate,
>)
    ensures
        r@ == ack_updates(mono_vertex, n, ack_micros, e2e_micros),
{
    let mut out: Vec<MetricUpdate> = Vec::new();
    if mono_vertex {
        let labels = LabelSchema::Monovertex;
        out.push(one(Metric::AckTime, labels, Update::Observe(ack_micros)));
        out.push(one(Metric::AckTotal, labels, Update::Count(n as u64)));
        out.push(one(Metric::E2eTime, labels, Update::Observe(e2e_micros)));
    } else {
        let labels = LabelSchema::Pipeline;
        out.push(one(Metric::AckProcessingTime, labels, Update::Observe(ack_micros)));
        out.push(one(Metric::AckTotal, labels, Update::Count(n as u64)));
        out.push(one(Metric::E2eTime, labels, Update::Observe(e2e_micros)));
    }
    assert(out@ =~= ack_updates(mono_vertex, n, ack_micros, e2e_micros));
    out
}

/// Bytes of payload in the first `k` messages.
pub open spec fn payload_bytes(messages: Seq<Message>, k: int) -> nat
    decreases k,
{
    if k <= 0 {
        0
    } else {
        payload_bytes(messages, k - 1) + messages[k - 1].value@.len()
    }
}

/// Bytes of payload in a batch, or the greatest count where they are beyond
/// it.
pub fn batch_bytes(messages: &Vec<Message>) -> (r: usize)
    ensures
        r == (if payload_bytes(messages@, messages@.len() as int) <= usize::MAX {
            payload_bytes(messages@, messages@.len() as int)
        } else {
            usize::MAX as nat
        }),
{
    let mut total: usize = 0;
    let mut i: usize = 0;
    while i < messages.len()
        invariant
            i <= messages@.len(),
            total == (if payload_bytes(messages@, i as int) <= usize::MAX {
                payload_bytes(messages@, i as int)
            } else {
                usize::MAX as nat
            }),
        decreases messages@.len() - i,
    {
        let n = messages[i].value.len();
        if n > usize::MAX - total {
            total = usize::MAX;
        } else {
            total = total + n;
        }
        i += 1;
    }
    total
}

} // verus!
