//! Settings of a vertex as the control plane hands them over. The data plane
//! reads little of them: what it does not read is carried as it came.

use vstd::prelude::*;

verus! {

/// A part of the settings that the data plane does not read: the document as
/// it was given.
#[derive(Clone, Debug, PartialEq)]
pub struct Document {
    pub text: String,
}

/// A key for the control plane's API, with the prefix that goes before it.
#[derive(Debug, Clone)]
pub struct ApiKey {
    pub prefix: Option<String>,
    pub key: String,
}

/// Settings of a serving source.
#[derive(Clone, Debug, PartialEq)]
pub struct ServingSpec {
    pub auth: Option<Box<Document>>,
    pub container_template: Option<Box<Document>>,
    /// The header key from which the message id will be extracted.
    pub msg_id_header_key: String,
    /// Number of replicas. Not to be set where an autoscaler manages the
    /// deployment.
    pub replicas: Option<i32>,
    /// Request timeout in seconds. 120 seconds where it is not set.
    pub request_timeout_seconds: Option<i64>,
    /// Whether to create a cluster-internal service.
    pub service: Option<bool>,
    pub store: Option<Box<Document>>,
}

impl ServingSpec {
    /// Settings with the header key and nothing else set.
    pub fn new(msg_id_header_key: String) -> (r: ServingSpec)
        ensures
            r.auth is None,
            r.container_template is None,
            r.msg_id_header_key == msg_id_header_key,
            r.replicas is None,
            r.request_timeout_seconds is None,
            r.service is None,
            r.store is None,
    {
        ServingSpec {
            auth: None,
            container_template: None,
            msg_id_header_key,
            replicas: None,
            request_timeout_seconds: None,
            service: None,
            store: None,
        }
    }
}

/// Settings of the service that holds the buffers between the vertices.
#[derive(Clone, Debug, PartialEq)]
pub struct BufferServiceConfig {
    pub jetstream: Option<Box<Document>>,
    pub redis: Option<Box<Document>>,
}

impl BufferServiceConfig {
    /// Settings with nothing set.
    pub fn new() -> (r: BufferServiceConfig)
        ensures
            r.jetstream is None,
            r.redis is None,
    {
        BufferServiceConfig { jetstream: None, redis: None }
    }
}

/// Settings of a source vertex: at most one of the kinds of source is set.
#[derive(Clone, Debug, PartialEq)]
pub struct Source {
    pub container: Option<Box<Document>>,
    pub generator: Option<Box<Document>>,
    pub http: Option<Box<Document>>,
    pub jetstream: Option<Box<Document>>,
    pub kafka: Option<Box<Document>>,
    pub nats: Option<Box<Document>>,
    pub pulsar: Option<Box<Document>>,
    pub serving: Option<Box<Document>>,
    pub transformer: Option<Box<Document>>,
    pub udsource: Option<Box<Document>>,
}

impl Source {
    /// Settings with nothing set.
    pub fn new() -> (r: Source)
        ensures
            r.container is None,
            r.generator is None,
            r.http is None,
            r.jetstream is None,
            r.kafka is None,
            r.nats is None,
            r.pulsar is None,
            r.serving is None,
            r.transformer is None,
            r.udsource is None,
    {
        Source {
            container: None,
            generator: None,
            http: None,
            jetstream: None,
            kafka: None,
            nats: None,
            pulsar: None,
            serving: None,
            transformer: None,
            udsource: None,
        }
    }
}

} // verus!
