//! Data-plane core of a source vertex of a streaming pipeline.
//!
//! A source vertex reads batches of messages from a source, tracks each
//! message until what lies downstream has persisted it, stamps watermarks,
//! hands the messages on, and acknowledges to the source what was persisted:
//! at least once, never before the persistence, and never more in flight than
//! the settings allow.
//!
//! Nothing in this crate waits or talks to the outside. The forwarder
//! ([`source`]) and the acknowledgement of a batch ([`ack`]) are state
//! machines: they are told what happened and say what is to be done next. The
//! tracker ([`tracker`]), the read-ahead gate ([`backpressure`]) and the
//! watermark generator ([`watermark`]) are plain data structures. What holds
//! of them together is proved in [`laws`].

pub mod ack;
pub mod backpressure;
pub mod batch;
pub mod envelope;
pub mod error;
pub mod laws;
pub mod message;
pub mod metrics;
pub mod models;
pub mod source;
pub mod text;
pub mod tracker;
pub mod vertex;
pub mod watermark;
