//! The message that travels from a source towards the sinks, and the
//! offsets by which a source acknowledges it.

use crate::text::{bytes_clone, bytes_eq, push_decimal_i64, push_decimal_u64, utf8_text};
use crate::text::{bytes_less, decimal, decimal_nat, lex_order};
use std::cmp::Ordering;
use std::collections::HashMap;
use vstd::prelude::*;
use vstd::std_specs::cmp::{PartialEqSpecImpl, PartialOrdSpecImpl};
use vstd::string::{StrSliceExecFns, StringExecFns};
use vstd::utf8::{decode_utf8, encode_utf8, valid_utf8};

verus! {

/// Tag that marks a message for silent discard after transformation.
pub const DROP: &'static str = "U+005C__DROP__";

/// A UTC instant: whole seconds since the Unix epoch and the nanoseconds past
/// that second.
#[derive(Debug, Clone, Copy, PartialEq, Eq, Structural, Hash)]
pub struct Timestamp {
    pub seconds: i64,
    pub nanos: u32,
}

impl Timestamp {
    pub fn new(seconds: i64, nanos: u32) -> (r: Self)
        ensures
            r.seconds == seconds,
            r.nanos == nanos,
    {
        Timestamp { seconds, nanos }
    }

    /// `self` lies strictly before `other`.
    pub open spec fn before(self, other: Timestamp) -> bool {
        self.seconds < other.seconds || (self.seconds == other.seconds && self.nanos < other.nanos)
    }

    /// `self` lies at or before `other`.
    pub open spec fn at_or_before(self, other: Timestamp) -> bool {
        !other.before(self)
    }

    pub fn is_before(&self, other: &Timestamp) -> (r: bool)
        ensures
            r == self.before(*other),
    {
        self.seconds < other.seconds || (self.seconds == other.seconds && self.nanos < other.nanos)
    }

    /// The earlier of two instants.
    pub open spec fn spec_earlier(self, other: Timestamp) -> Timestamp {
        if other.before(self) {
            other
        } else {
            self
        }
    }

    /// The later of two instants.
    pub open spec fn spec_later(self, other: Timestamp) -> Timestamp {
        if self.before(other) {
            other
        } else {
            self
        }
    }

    pub fn earlier(self, other: Timestamp) -> (r: Timestamp)
        ensures
            r == self.spec_earlier(other),
    {
        if other.is_before(&self) {
            other
        } else {
            self
        }
    }

    pub fn later(self, other: Timestamp) -> (r: Timestamp)
        ensures
            r == self.spec_later(other),
    {
        if self.is_before(&other) {
            other
        } else {
            self
        }
    }

    /// The nanoseconds hold less than a second.
    pub open spec fn normal(self) -> bool {
        self.nanos < 1_000_000_000
    }

    /// Nanoseconds since the Unix epoch.
    pub open spec fn total_nanos(self) -> int {
        self.seconds * 1_000_000_000 + self.nanos
    }

    /// Nanoseconds since the epoch of the earliest instant that arithmetic
    /// gives.
    pub open spec fn min_total() -> int {
        i64::MIN * 1_000_000_000
    }

    /// Nanoseconds since the epoch of the latest instant that arithmetic
    /// gives.
    pub open spec fn max_total() -> int {
        i64::MAX * 1_000_000_000 + 999_999_999
    }

    /// `total` brought into the range of instants.
    pub open spec fn clamped(total: int) -> int {
        if total < Self::min_total() {
            Self::min_total()
        } else if total > Self::max_total() {
            Self::max_total()
        } else {
            total
        }
    }

    /// The instant that lies `total` nanoseconds from the epoch, brought
    /// into the range of instants.
    pub open spec fn of_total(total: int) -> Timestamp {
        Timestamp {
            seconds: (Self::clamped(total) / 1_000_000_000) as i64,
            nanos: (Self::clamped(total) % 1_000_000_000) as u32,
        }
    }

    /// The instant `millis` milliseconds after this one, or the latest
    /// instant where that lies beyond it.
    pub open spec fn spec_plus_millis(self, millis: u64) -> Timestamp {
        Self::of_total(self.total_nanos() + millis * 1_000_000)
    }

    /// The instant `millis` milliseconds before this one, or the earliest
    /// instant where that lies beyond it.
    pub open spec fn spec_minus_millis(self, millis: u64) -> Timestamp {
        Self::of_total(self.total_nanos() - millis * 1_000_000)
    }

    /// An instant made from a number of nanoseconds holds less than a second
    /// in its nanoseconds, and lies that many nanoseconds from the epoch.
    pub proof fn lemma_of_total(total: int)
        ensures
            Self::of_total(total).normal(),
            Self::of_total(total).total_nanos() == Self::clamped(total),
    {
    }

    pub fn plus_millis(self, millis: u64) -> (r: Timestamp)
        ensures
            r == self.spec_plus_millis(millis),
    {
        let q: u64 = millis / 1000;
        let part: u64 = (millis % 1000) * 1_000_000;
        let n: u64 = self.nanos as u64 + part;
        let carry: u64 = n / 1_000_000_000;
        let nanos: u32 = (n % 1_000_000_000) as u32;
        let s: i128 = self.seconds as i128 + q as i128 + carry as i128;
        if s > i64::MAX as i128 {
            Timestamp { seconds: i64::MAX, nanos: 999_999_999 }
        } else {
            let r = Timestamp { seconds: s as i64, nanos };
            assert(r.total_nanos() == self.total_nanos() + millis * 1_000_000);
            r
        }
    }

    pub fn minus_millis(self, millis: u64) -> (r: Timestamp)
        ensures
            r == self.spec_minus_millis(millis),
    {
        let q: u64 = millis / 1000;
        let part: u64 = (millis % 1000) * 1_000_000;
        let borrow: u64 = if self.nanos as u64 >= part {
            0
        } else {
            1
        };
        let n: u64 = self.nanos as u64 + borrow * 1_000_000_000 - part;
        let carry: u64 = n / 1_000_000_000;
        let nanos: u32 = (n % 1_000_000_000) as u32;
        let s: i128 = self.seconds as i128 - q as i128 - borrow as i128 + carry as i128;
        if s < i64::MIN as i128 {
            Timestamp { seconds: i64::MIN, nanos: 0 }
        } else if s > i64::MAX as i128 {
            Timestamp { seconds: i64::MAX, nanos: 999_999_999 }
        } else {
            let r = Timestamp { seconds: s as i64, nanos };
            assert(r.total_nanos() == self.total_nanos() - millis * 1_000_000);
            r
        }
    }

    /// Among instants whose nanoseconds hold less than a second, the earlier
    /// one is the one with fewer nanoseconds since the epoch.
    pub proof fn lemma_before_is_fewer_nanos(self, other: Timestamp)
        requires
            self.normal(),
            other.normal(),
        ensures
            self.before(other) <==> self.total_nanos() < other.total_nanos(),
    {
    }
}

/// Kind of payload that a message carries.
#[derive(Debug, Clone, Copy, PartialEq, Eq, Structural)]
pub enum MessageType {
    /// The payload is data.
    Data,
    /// The payload is a watermark barrier, a control message.
    WMB,
}

impl Default for MessageType {
    fn default() -> (r: Self)
        ensures
            r == MessageType::Data,
    {
        MessageType::Data
    }
}

impl MessageType {
    /// The kind for a number of the wire format: 0 is data, anything else a
    /// watermark barrier.
    pub open spec fn of_kind(kind: i32) -> MessageType {
        if kind == 0 {
            MessageType::Data
        } else {
            MessageType::WMB
        }
    }

    /// The number of the wire format for this kind.
    pub open spec fn kind(self) -> i32 {
        match self {
            MessageType::Data => 0i32,
            MessageType::WMB => 1i32,
        }
    }

    pub fn to_string(&self) -> (r: String)
        ensures
            r@ == (match *self {
                MessageType::Data => "Data"@,
                MessageType::WMB => "WMB"@,
            }),
    {
        match self {
            MessageType::Data => String::from_str("Data"),
            MessageType::WMB => String::from_str("WMB"),
        }
    }
}

impl From<i32> for MessageType {
    fn from(kind: i32) -> (r: Self) {
        match kind {
            0 => MessageType::Data,
            _ => MessageType::WMB,
        }
    }
}

impl vstd::std_specs::convert::FromSpecImpl<i32> for MessageType {
    open spec fn obeys_from_spec() -> bool {
        true
    }

    open spec fn from_spec(kind: i32) -> Self {
        MessageType::of_kind(kind)
    }
}

impl From<MessageType> for i32 {
    fn from(kind: MessageType) -> (r: Self) {
        match kind {
            MessageType::Data => 0,
            MessageType::WMB => 1,
        }
    }
}

impl vstd::std_specs::convert::FromSpecImpl<MessageType> for i32 {
    open spec fn obeys_from_spec() -> bool {
        true
    }

    open spec fn from_spec(kind: MessageType) -> Self {
        kind.kind()
    }
}

/// Outcome that a tracked message reports back to its source.
#[derive(Debug, Clone, Copy, PartialEq, Eq, Structural)]
pub enum ReadAck {
    /// The message was processed.
    Ack,
    /// The message was not processed and will be delivered again.
    Nak,
}

/// Integer offset within one partition of a source.
#[derive(Debug, Clone, Copy, PartialEq, Eq, Structural, Hash, Default)]
pub struct IntOffset {
    pub offset: i64,
    pub partition_idx: u16,
}

impl IntOffset {
    pub fn new(seq: i64, partition_idx: u16) -> (r: Self)
        ensures
            r.offset == seq,
            r.partition_idx == partition_idx,
    {
        IntOffset { offset: seq, partition_idx }
    }

    /// `<offset>-<partition>`, both in decimal.
    pub open spec fn text(self) -> Seq<char> {
        decimal(self.offset as int) + seq!['-'] + decimal_nat(self.partition_idx as nat)
    }

    pub fn to_string(&self) -> (r: String)
        ensures
            r@ == self.text(),
    {
        let mut out = String::new();
        push_decimal_i64(&mut out, self.offset);
        proof {
            reveal_strlit("-");
        }
        out.append("-");
        push_decimal_u64(&mut out, self.partition_idx as u64);
        assert(out@ =~= self.text());
        out
    }
}

/// Offset made of bytes, which may be an involved encoded string.
#[derive(Debug, Hash)]
pub struct StringOffset {
    pub offset: Vec<u8>,
    pub partition_idx: u16,
}

/// What a [`StringOffset`] holds.
pub struct StringOffsetView {
    pub offset: Seq<u8>,
    pub partition_idx: u16,
}

impl View for StringOffset {
    type V = StringOffsetView;

    open spec fn view(&self) -> StringOffsetView {
        StringOffsetView { offset: self.offset@, partition_idx: self.partition_idx }
    }
}

impl Clone for StringOffset {
    fn clone(&self) -> (r: Self)
        ensures
            r@ == self@,
    {
        StringOffset { offset: bytes_clone(&self.offset), partition_idx: self.partition_idx }
    }
}

impl StringOffsetView {
    /// `<offset>-<partition>`: the offset as the text it encodes, the
    /// partition in decimal.
    pub open spec fn text(self) -> Seq<char> {
        decode_utf8(self.offset) + seq!['-'] + decimal_nat(self.partition_idx as nat)
    }
}

impl StringOffset {
    pub fn new(seq: String, partition_idx: u16) -> (r: Self)
        ensures
            r.offset@ == encode_utf8(seq@),
            r.partition_idx == partition_idx,
    {
        StringOffset { offset: seq.as_str().as_bytes_vec(), partition_idx }
    }

    /// The offset as text. The bytes have to be UTF-8.
    pub fn to_string(&self) -> (r: String)
        requires
            valid_utf8(self.offset@),
        ensures
            r@ == self@.text(),
    {
        let mut out = match utf8_text(&self.offset) {
            Some(s) => s,
            None => String::new(),
        };
        proof {
            reveal_strlit("-");
        }
        out.append("-");
        push_decimal_u64(&mut out, self.partition_idx as u64);
        assert(out@ =~= self@.text());
        out
    }
}

/// Offset of a message, by which the message is acknowledged.
#[derive(Debug, Hash)]
pub enum Offset {
    Int(IntOffset),
    String(StringOffset),
}

/// What an [`Offset`] holds.
pub enum OffsetView {
    Int(IntOffset),
    String(StringOffsetView),
}

impl View for Offset {
    type V = OffsetView;

    open spec fn view(&self) -> OffsetView {
        match self {
            Offset::Int(o) => OffsetView::Int(*o),
            Offset::String(o) => OffsetView::String(o@),
        }
    }
}

impl OffsetView {
    pub open spec fn partition_idx(self) -> u16 {
        match self {
            OffsetView::Int(o) => o.partition_idx,
            OffsetView::String(o) => o.partition_idx,
        }
    }

    /// `<offset>-<partition>`.
    pub open spec fn text(self) -> Seq<char> {
        match self {
            OffsetView::Int(o) => o.text(),
            OffsetView::String(o) => o.text(),
        }
    }

    /// Whether the offset can be shown as text: always for integers, for byte
    /// offsets where the bytes are UTF-8.
    pub open spec fn printable(self) -> bool {
        match self {
            OffsetView::Int(_) => true,
            OffsetView::String(o) => valid_utf8(o.offset),
        }
    }
}

impl Clone for Offset {
    fn clone(&self) -> (r: Self)
        ensures
            r@ == self@,
    {
        match self {
            Offset::Int(o) => Offset::Int(*o),
            Offset::String(o) => Offset::String(o.clone()),
        }
    }
}

impl Default for Offset {
    fn default() -> (r: Self)
        ensures
            r@ == OffsetView::Int(IntOffset { offset: 0, partition_idx: 0 }),
    {
        Offset::Int(IntOffset { offset: 0, partition_idx: 0 })
    }
}

impl PartialEq for Offset {
    fn eq(&self, other: &Self) -> (r: bool) {
        match (self, other) {
            (Offset::Int(a), Offset::Int(b)) => a.offset == b.offset && a.partition_idx
                == b.partition_idx,
            (Offset::String(a), Offset::String(b)) => a.partition_idx == b.partition_idx
                && bytes_eq(&a.offset, &b.offset),
            _ => false,
        }
    }
}

impl Eq for Offset {

}

impl PartialEqSpecImpl for Offset {
    open spec fn obeys_eq_spec() -> bool {
        true
    }

    open spec fn eq_spec(&self, other: &Self) -> bool {
        self@ == other@
    }
}

impl Offset {
    pub fn partition_idx(&self) -> (r: u16)
        ensures
            r == self@.partition_idx(),
    {
        match self {
            Offset::Int(offset) => offset.partition_idx,
            Offset::String(offset) => offset.partition_idx,
        }
    }

    /// The offset as text. A byte offset has to be UTF-8.
    pub fn to_string(&self) -> (r: String)
        requires
            self@.printable(),
        ensures
            r@ == self@.text(),
    {
        match self {
            Offset::Int(offset) => offset.to_string(),
            Offset::String(offset) => offset.to_string(),
        }
    }
}

impl IntOffset {
    /// Order of two integer offsets: by the offset alone.
    pub open spec fn order(self, other: IntOffset) -> Ordering {
        if self.offset < other.offset {
            Ordering::Less
        } else if self.offset > other.offset {
            Ordering::Greater
        } else {
            Ordering::Equal
        }
    }
}

impl PartialOrd for IntOffset {
    fn partial_cmp(&self, other: &Self) -> (r: Option<Ordering>) {
        if self.offset < other.offset {
            Some(Ordering::Less)
        } else if self.offset > other.offset {
            Some(Ordering::Greater)
        } else {
            Some(Ordering::Equal)
        }
    }
}

impl PartialOrdSpecImpl for IntOffset {
    open spec fn obeys_partial_cmp_spec() -> bool {
        true
    }

    open spec fn partial_cmp_spec(&self, other: &Self) -> Option<Ordering> {
        Some(self.order(*other))
    }
}

impl PartialEq for StringOffset {
    fn eq(&self, other: &Self) -> (r: bool) {
        self.partition_idx == other.partition_idx && bytes_eq(&self.offset, &other.offset)
    }
}

impl Eq for StringOffset {

}

impl PartialEqSpecImpl for StringOffset {
    open spec fn obeys_eq_spec() -> bool {
        true
    }

    open spec fn eq_spec(&self, other: &Self) -> bool {
        self@ == other@
    }
}

impl StringOffsetView {
    /// Order of two byte offsets: lexicographic, by the bytes alone.
    pub open spec fn order(self, other: StringOffsetView) -> Ordering {
        lex_order(self.offset, other.offset)
    }
}

impl PartialOrd for StringOffset {
    fn partial_cmp(&self, other: &Self) -> (r: Option<Ordering>) {
        if bytes_less(&self.offset, &other.offset) {
            Some(Ordering::Less)
        } else if bytes_less(&other.offset, &self.offset) {
            Some(Ordering::Greater)
        } else {
            Some(Ordering::Equal)
        }
    }
}

impl PartialOrdSpecImpl for StringOffset {
    open spec fn obeys_partial_cmp_spec() -> bool {
        true
    }

    open spec fn partial_cmp_spec(&self, other: &Self) -> Option<Ordering> {
        Some(self@.order(other@))
    }
}

impl OffsetView {
    /// Order of two offsets. Offsets of one kind are ordered as that kind
    /// orders them; offsets of different kinds do not precede one another.
    pub open spec fn order(self, other: OffsetView) -> Ordering {
        match (self, other) {
            (OffsetView::Int(a), OffsetView::Int(b)) => a.order(b),
            (OffsetView::String(a), OffsetView::String(b)) => a.order(b),
            _ => Ordering::Equal,
        }
    }
}

impl PartialOrd for Offset {
    fn partial_cmp(&self, other: &Self) -> (r: Option<Ordering>) {
        match (self, other) {
            (Offset::Int(a), Offset::Int(b)) => a.partial_cmp(b),
            (Offset::String(a), Offset::String(b)) => a.partial_cmp(b),
            _ => Some(Ordering::Equal),
        }
    }
}

impl PartialOrdSpecImpl for Offset {
    open spec fn obeys_partial_cmp_spec() -> bool {
        true
    }

    open spec fn partial_cmp_spec(&self, other: &Self) -> Option<Ordering> {
        Some(self@.order(other@))
    }
}

/// Identity of a message, stable across retries.
#[derive(Debug)]
pub struct MessageID {
    /// Name of the vertex that produced the message.
    pub vertex_name: Vec<u8>,
    /// Offset of the message, as bytes.
    pub offset: Vec<u8>,
    /// Place of the message among those that one input fanned out to.
    pub index: i32,
}

/// What a [`MessageID`] holds.
pub struct MessageIDView {
    pub vertex_name: Seq<u8>,
    pub offset: Seq<u8>,
    pub index: i32,
}

impl View for MessageID {
    type V = MessageIDView;

    open spec fn view(&self) -> MessageIDView {
        MessageIDView { vertex_name: self.vertex_name@, offset: self.offset@, index: self.index }
    }
}

impl MessageIDView {
    /// `<vertex>-<offset>-<index>`.
    pub open spec fn text(self) -> Seq<char> {
        decode_utf8(self.vertex_name) + seq!['-'] + decode_utf8(self.offset) + seq!['-'] + decimal(
            self.index as int,
        )
    }

    /// Whether both byte fields are UTF-8.
    pub open spec fn printable(self) -> bool {
        valid_utf8(self.vertex_name) && valid_utf8(self.offset)
    }
}

impl Clone for MessageID {
    fn clone(&self) -> (r: Self)
        ensures
            r@ == self@,
    {
        MessageID {
            vertex_name: bytes_clone(&self.vertex_name),
            offset: bytes_clone(&self.offset),
            index: self.index,
        }
    }
}

impl Default for MessageID {
    fn default() -> (r: Self)
        ensures
            r@ == (MessageIDView { vertex_name: Seq::empty(), offset: Seq::empty(), index: 0 }),
    {
        MessageID { vertex_name: Vec::new(), offset: Vec::new(), index: 0 }
    }
}

impl PartialEq for MessageID {
    fn eq(&self, other: &Self) -> (r: bool) {
        self.index == other.index && bytes_eq(&self.vertex_name, &other.vertex_name) && bytes_eq(
            &self.offset,
            &other.offset,
        )
    }
}

impl PartialEqSpecImpl for MessageID {
    open spec fn obeys_eq_spec() -> bool {
        true
    }

    open spec fn eq_spec(&self, other: &Self) -> bool {
        self@ == other@
    }
}

impl MessageID {
    /// The identity as text. Both byte fields have to be UTF-8.
    pub fn to_string(&self) -> (r: String)
        requires
            self@.printable(),
        ensures
            r@ == self@.text(),
    {
        let mut out = match utf8_text(&self.vertex_name) {
            Some(s) => s,
            None => String::new(),
        };
        proof {
            reveal_strlit("-");
        }
        out.append("-");
        match utf8_text(&self.offset) {
            Some(s) => out.append(s.as_str()),
            None => {},
        }
        out.append("-");
        push_decimal_i64(&mut out, self.index as i64);
        assert(out@ =~= self@.text());
        out
    }
}

/// One entry of a metadata group.
#[derive(Debug, Clone)]
pub struct KeyValue {
    pub key: String,
    pub value: Vec<u8>,
}

/// A named group of metadata entries.
#[derive(Debug, Clone)]
pub struct KeyValueGroup {
    pub group: HashMap<String, KeyValue>,
}

/// Metadata that travels with a message from vertex to vertex.
#[derive(Debug, Clone)]
pub struct Metadata {
    /// Name of the vertex that the message came from.
    pub previous_vertex: String,
    pub sys_metadata: HashMap<String, KeyValueGroup>,
    pub user_metadata: HashMap<String, KeyValueGroup>,
}

impl Default for Metadata {
    fn default() -> (r: Self)
        ensures
            r.previous_vertex@ == Seq::<char>::empty(),
            r.sys_metadata@ == Map::<String, KeyValueGroup>::empty(),
            r.user_metadata@ == Map::<String, KeyValueGroup>::empty(),
    {
        Metadata {
            previous_vertex: String::new(),
            sys_metadata: HashMap::new(),
            user_metadata: HashMap::new(),
        }
    }
}

/// The message that is passed from the source towards the sinks.
#[derive(Debug, Clone)]
pub struct Message {
    /// Kind of the message.
    pub typ: MessageType,
    /// Routing keys of the message.
    pub keys: Vec<String>,
    /// Tags of the message.
    pub tags: Option<Vec<String>>,
    /// Payload of the message.
    pub value: Vec<u8>,
    /// Offset of the message at its source.
    pub offset: Offset,
    /// Event time of the message.
    pub event_time: Timestamp,
    /// Watermark of the message, once one was assigned.
    pub watermark: Option<Timestamp>,
    /// Identity of the message.
    pub id: MessageID,
    /// Headers of the message.
    pub headers: HashMap<String, String>,
    /// Metadata passed along with the message between the vertices.
    pub metadata: Option<Metadata>,
    /// Whether the message arrived after the watermark had passed its event
    /// time. Set at the source only.
    pub is_late: bool,
}

/// Reads the clock through `chrono::Utc::now` and takes the instant apart
/// with `timestamp` and `timestamp_subsec_nanos`. Nothing is claimed of the
/// time itself. The bound on the nanoseconds rests on the source of `now`,
/// which builds the instant from a duration since the epoch, whose
/// sub-second part stays under one second. `now` panics where the system
/// clock stands before the Unix epoch.
#[verifier::external_body]
fn utc_now() -> (r: Timestamp)
    ensures
        r.nanos < 1_000_000_000,
{
    let now = chrono::Utc::now();
    Timestamp { seconds: now.timestamp(), nanos: now.timestamp_subsec_nanos() }
}

impl Default for Message {
    /// An empty data message whose event time is the current time.
    fn default() -> (r: Self)
        ensures
            r.typ == MessageType::Data,
            r.keys@ == Seq::<String>::empty(),
            r.tags is None,
            r.value@ == Seq::<u8>::empty(),
            r.offset@ == OffsetView::Int(IntOffset { offset: 0, partition_idx: 0 }),
            r.event_time.nanos < 1_000_000_000,
            r.watermark is None,
            r.id@ == (MessageIDView { vertex_name: Seq::empty(), offset: Seq::empty(), index: 0 }),
            r.headers@ == Map::<String, String>::empty(),
            r.metadata is None,
            !r.is_late,
    {
        Message {
            keys: Vec::new(),
            tags: None,
            value: Vec::new(),
            offset: Offset::default(),
            event_time: utc_now(),
            watermark: None,
            id: MessageID::default(),
            headers: HashMap::new(),
            metadata: None,
            typ: MessageType::default(),
            is_late: false,
        }
    }
}

/// Whether one of the tags is the given text.
pub open spec fn has_tag(tags: Seq<String>, tag: Seq<char>) -> bool {
    exists|i: int| 0 <= i < tags.len() && (#[trigger] tags[i])@ == tag
}

impl Message {
    /// The message carries the tag that marks it for discard.
    pub open spec fn is_dropped(&self) -> bool {
        match self.tags {
            Some(tags) => has_tag(tags@, DROP@),
            None => false,
        }
    }

    /// Whether the message should be dropped.
    pub fn dropped(&self) -> (r: bool)
        ensures
            r == self.is_dropped(),
    {
        match &self.tags {
            None => false,
            Some(tags) => {
                let marker = String::from_str(DROP);
                let mut i: usize = 0;
                while i < tags.len()
                    invariant
                        i <= tags.len(),
                        self.tags == Some(*tags),
                        marker@ == DROP@,
                        forall|j: int| 0 <= j < i ==> (#[trigger] tags@[j])@ != DROP@,
                    decreases tags.len() - i,
                {
                    if tags[i] == marker {
                        assert(tags@[i as int]@ == DROP@);
                        return true;
                    }
                    i += 1;
                }
                false
            },
        }
    }
}

} // verus!
