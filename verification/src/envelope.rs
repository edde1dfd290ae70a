//! The envelope in which a message is persisted to the buffer between two
//! vertices: a header with what is known of the message, and a body with its
//! payload. This module says what goes into each field; turning the envelope
//! into bytes is left to whoever writes it.

use crate::message::{Message, MessageID, MessageIDView, MessageType, Metadata, Timestamp};
use std::collections::HashMap;
use vstd::prelude::*;
use vstd::string::StrSliceExecFns;
use vstd::utf8::{decode_utf8, encode_utf8, valid_utf8};

verus! {

/// An instant as the envelope holds it: seconds since the Unix epoch, and
/// nanoseconds below one second.
#[derive(Debug, Clone, Copy, PartialEq, Eq, Structural)]
pub struct EventTime {
    pub seconds: i64,
    pub nanos: i32,
}

/// What the envelope says of the time of a message.
#[derive(Debug, Clone, Copy, PartialEq, Eq, Structural)]
pub struct MessageInfo {
    pub event_time: Option<EventTime>,
    pub is_late: bool,
}

/// The identity of a message as the envelope holds it: the name of the
/// vertex and the offset as text, and the fan-out index.
#[derive(Debug, Clone)]
pub struct MessageId {
    pub vertex_name: String,
    pub offset: String,
    pub index: i32,
}

/// The header of an envelope.
#[derive(Debug, Clone)]
pub struct Header {
    pub message_info: Option<MessageInfo>,
    /// 0 for data, 1 for a watermark barrier.
    pub kind: i32,
    pub id: Option<MessageId>,
    pub keys: Vec<String>,
    pub headers: HashMap<String, String>,
    pub metadata: Option<Metadata>,
}

/// The body of an envelope.
#[derive(Debug, Clone)]
pub struct Body {
    pub payload: Vec<u8>,
}

/// The envelope of a message.
#[derive(Debug, Clone)]
pub struct Envelope {
    pub header: Option<Header>,
    pub body: Option<Body>,
}

/// The text that `String::from_utf8_lossy` makes of a byte string, in which
/// whatever is not UTF-8 is replaced.
pub uninterp spec fn utf8_lossy(bytes: Seq<u8>) -> Seq<char>;

/// Reads a byte string as text through `String::from_utf8_lossy`, which
/// replaces whatever is not UTF-8 by the replacement character. The result is
/// known by name only, but for a byte string that is UTF-8: the standard
/// library's documentation says that such a string comes back unchanged.
#[verifier::external_body]
fn lossy_text(bytes: &Vec<u8>) -> (r: String)
    ensures
        r@ == utf8_lossy(bytes@),
        valid_utf8(bytes@) ==> encode_utf8(r@) == bytes@,
{
    String::from_utf8_lossy(bytes).into_owned()
}

/// The identity that an envelope holds for the given texts. The texts are
/// what the byte fields of a message's identity read as.
pub fn message_id_of(vertex_name: String, offset: String, index: i32) -> (r: MessageId)
    ensures
        r.vertex_name == vertex_name,
        r.offset == offset,
        r.index == index,
{
    MessageId { vertex_name, offset, index }
}

impl EventTime {
    /// The instant of a timestamp: the same instant, with the nanoseconds
    /// brought below one second.
    pub open spec fn of(t: Timestamp) -> EventTime {
        EventTime {
            seconds: Timestamp::of_total(t.total_nanos()).seconds,
            nanos: Timestamp::of_total(t.total_nanos()).nanos as i32,
        }
    }

    pub fn from_timestamp(t: Timestamp) -> (r: EventTime)
        ensures
            r == EventTime::of(t),
            0 <= r.nanos < 1_000_000_000,
            t.normal() ==> r.seconds == t.seconds && r.nanos == t.nanos,
    {
        let n = t.plus_millis(0);
        proof {
            Timestamp::lemma_of_total(t.total_nanos());
        }
        EventTime { seconds: n.seconds, nanos: n.nanos as i32 }
    }
}

impl MessageID {
    /// The identity as an envelope holds it: the byte fields read as text,
    /// whatever in them is not UTF-8 replaced.
    pub fn to_envelope(&self) -> (r: MessageId)
        ensures
            r.vertex_name@ == utf8_lossy(self.vertex_name@),
            r.offset@ == utf8_lossy(self.offset@),
            r.index == self.index,
            valid_utf8(self.vertex_name@) ==> r.vertex_name@ == decode_utf8(self.vertex_name@),
            valid_utf8(self.offset@) ==> r.offset@ == decode_utf8(self.offset@),
    {
        let vertex_name = lossy_text(&self.vertex_name);
        let offset = lossy_text(&self.offset);
        proof {
            vstd::utf8::encode_utf8_decode_utf8(vertex_name@);
            vstd::utf8::encode_utf8_decode_utf8(offset@);
        }
        message_id_of(vertex_name, offset, self.index)
    }

    /// The identity that an envelope holds, as a message carries it: the
    /// texts as their bytes.
    pub fn from_envelope(id: MessageId) -> (r: MessageID)
        ensures
            r@ == (MessageIDView {
                vertex_name: encode_utf8(id.vertex_name@),
                offset: encode_utf8(id.offset@),
                index: id.index,
            }),
    {
        MessageID {
            vertex_name: id.vertex_name.as_str().as_bytes_vec(),
            offset: id.offset.as_str().as_bytes_vec(),
            index: id.index,
        }
    }
}

impl Metadata {
    /// The metadata as it is handed to the next vertex: the same groups,
    /// under the name of the vertex that hands them on.
    pub fn to_envelope(self, vertex_name: String) -> (r: Metadata)
        ensures
            r.previous_vertex == vertex_name,
            r.sys_metadata == self.sys_metadata,
            r.user_metadata == self.user_metadata,
    {
        Metadata {
            previous_vertex: vertex_name,
            sys_metadata: self.sys_metadata,
            user_metadata: self.user_metadata,
        }
    }
}

/// The number that an envelope holds for a kind of message.
pub fn kind_of(typ: MessageType) -> (r: i32)
    ensures
        r == typ.kind(),
{
    match typ {
        MessageType::Data => 0,
        MessageType::WMB => 1,
    }
}

impl Message {
    /// The envelope of the message, as the vertex named `vertex_name`
    /// persists it. The offset and the tags of the message stay behind: they
    /// are of use at the source only.
    pub fn to_envelope(self, vertex_name: String) -> (r: Envelope)
        ensures
            r.header matches Some(header) && {
                &&& header.message_info == Some(
                    MessageInfo {
                        event_time: Some(EventTime::of(self.event_time)),
                        is_late: self.is_late,
                    },
                )
                &&& header.kind == self.typ.kind()
                &&& header.id matches Some(id) && id.vertex_name@ == utf8_lossy(self.id.vertex_name@)
                    && id.offset@ == utf8_lossy(self.id.offset@) && id.index == self.id.index
                &&& header.keys == self.keys
                &&& header.headers == self.headers
                &&& match self.metadata {
                    Some(given) => header.metadata matches Some(handed) && handed.previous_vertex
                        == vertex_name && handed.sys_metadata == given.sys_metadata
                        && handed.user_metadata == given.user_metadata,
                    None => header.metadata is None,
                }
            },
            r.body matches Some(body) && body.payload == self.value,
    {
        let id = self.id.to_envelope();
        let metadata = match self.metadata {
            Some(m) => Some(m.to_envelope(vertex_name)),
            None => None,
        };
        Envelope {
            header: Some(
                Header {
                    message_info: Some(
                        MessageInfo {
                            event_time: Some(EventTime::from_timestamp(self.event_time)),
                            is_late: self.is_late,
                        },
                    ),
                    kind: kind_of(self.typ),
                    id: Some(id),
                    keys: self.keys,
                    headers: self.headers,
                    metadata,
                },
            ),
            body: Some(Body { payload: self.value }),
        }
    }
}

} // verus!
