//! The kinds of vertex of a pipeline, and what each of them needs to track
//! watermarks.

use vstd::prelude::*;

verus! {

/// What a vertex does in its pipeline.
#[derive(Debug, Clone, Copy, PartialEq, Eq, Structural)]
pub enum VertexType {
    /// Reads from a source outside the pipeline.
    Source,
    /// Writes to a sink outside the pipeline.
    Sink,
    /// Reads from a buffer and writes to buffers.
    MapUdf,
}

/// The kind of watermark settings that a pipeline carries for a vertex.
#[derive(Debug, Clone, Copy, PartialEq, Eq, Structural)]
pub enum WatermarkConfig {
    /// Settings for the watermarks that a source generates.
    Source,
    /// Settings for the watermarks that travel along an edge.
    Edge,
}

/// The kind of watermark handle that a vertex works with.
#[derive(Debug, Clone, Copy, PartialEq, Eq, Structural)]
pub enum WatermarkHandle {
    /// Generates the watermarks of a source.
    Source,
    /// Carries watermarks from buffer to buffer.
    ISB,
}

/// The watermark handle of a vertex. A source vertex generates watermarks
/// where it has the settings of a source; a map or sink vertex carries them
/// on where it has the settings of an edge. Settings of the other kind, like
/// no settings, leave the vertex without watermarks.
pub open spec fn spec_watermark_handle_for(vertex: VertexType, config: Option<WatermarkConfig>)
    -> Option<WatermarkHandle> {
    match (vertex, config) {
        (VertexType::Source, Some(WatermarkConfig::Source)) => Some(WatermarkHandle::Source),
        (VertexType::Sink, Some(WatermarkConfig::Edge)) => Some(WatermarkHandle::ISB),
        (VertexType::MapUdf, Some(WatermarkConfig::Edge)) => Some(WatermarkHandle::ISB),
        _ => None,
    }
}

/// The watermark handle with which the forwarder of a vertex is started.
pub fn watermark_handle_for(vertex: VertexType, config: Option<WatermarkConfig>) -> (r: Option<
    WatermarkHandle,
>)
    ensures
        r == spec_watermark_handle_for(vertex, config),
{
    match (vertex, config) {
        (VertexType::Source, Some(WatermarkConfig::Source)) => Some(WatermarkHandle::Source),
        (VertexType::Sink, Some(WatermarkConfig::Edge)) => Some(WatermarkHandle::ISB),
        (VertexType::MapUdf, Some(WatermarkConfig::Edge)) => Some(WatermarkHandle::ISB),
        _ => None,
    }
}

} // verus!
