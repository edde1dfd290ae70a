//! Failures that the library reports.

use vstd::prelude::*;

verus! {

/// Why an operation of the data plane failed.
#[derive(Debug, Clone)]
pub enum Error {
    /// A message was registered under an offset that is already in flight.
    DuplicateOffset,
    /// The offset is not in flight.
    UnknownOffset,
    /// An entry cannot expect that many more signals.
    TooManySignals,
    /// The source could not be read.
    Source(String),
    /// The transformer failed on a batch.
    Transformer(String),
    /// An event arrived that the forwarder was not waiting for.
    Protocol,
}

} // verus!
