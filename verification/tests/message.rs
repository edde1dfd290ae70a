use std::cmp::Ordering;
use std::collections::HashMap;

use numaflow_core::envelope::{EventTime, MessageId, MessageInfo};
use numaflow_core::message::{
    IntOffset, Message, MessageID, MessageType, Offset, ReadAck, StringOffset, Timestamp, DROP,
};

fn bytes(text: &str) -> Vec<u8> {
    text.as_bytes().to_vec()
}

#[test]
fn test_offset_display() {
    let offset = Offset::String(StringOffset { offset: bytes("123"), partition_idx: 1 });
    assert_eq!(offset.to_string(), "123-1");
}

#[test]
fn test_message_id_display() {
    let message_id = MessageID { vertex_name: bytes("vertex"), offset: bytes("123"), index: 0 };
    assert_eq!(message_id.to_string(), "vertex-123-0");
}

#[test]
fn test_message_to_vec_u8() {
    let message = Message {
        typ: Default::default(),
        keys: vec!["key1".to_string()],
        tags: None,
        value: vec![1, 2, 3],
        offset: Offset::String(StringOffset { offset: bytes("123"), partition_idx: 0 }),
        event_time: Timestamp::new(1627846261, 0),
        watermark: None,
        id: MessageID { vertex_name: bytes("vertex"), offset: bytes("123"), index: 0 },
        headers: HashMap::new(),
        metadata: None,
        is_late: false,
    };

    let envelope = message.clone().to_envelope("next".to_string());

    let header = envelope.header.expect("an envelope has a header");
    assert_eq!(
        header.message_info,
        Some(MessageInfo {
            event_time: Some(EventTime { seconds: 1627846261, nanos: 0 }),
            is_late: false,
        })
    );
    assert_eq!(header.kind, 0);
    let id = header.id.expect("an envelope has an id");
    assert_eq!(id.vertex_name, "vertex");
    assert_eq!(id.offset, "123");
    assert_eq!(id.index, 0);
    assert_eq!(header.keys, message.keys);
    assert_eq!(header.headers, message.headers);
    assert!(header.metadata.is_none());
    assert_eq!(envelope.body.expect("an envelope has a body").payload, message.value);
}

#[test]
fn test_message_id_from_proto() {
    let proto_id =
        MessageId { vertex_name: "vertex".to_string(), offset: "123".to_string(), index: 0 };
    let message_id = MessageID::from_envelope(proto_id);
    assert_eq!(message_id.vertex_name, bytes("vertex"));
    assert_eq!(message_id.offset, bytes("123"));
    assert_eq!(message_id.index, 0);
}

#[test]
fn test_message_id_to_proto() {
    let message_id = MessageID { vertex_name: bytes("vertex"), offset: bytes("123"), index: 0 };
    let proto_id = message_id.to_envelope();
    assert_eq!(proto_id.vertex_name, "vertex");
    assert_eq!(proto_id.offset, "123");
    assert_eq!(proto_id.index, 0);
}

#[test]
fn test_offset_cases() {
    let int_offset = IntOffset::new(42, 1);
    assert_eq!(int_offset.offset, 42);
    assert_eq!(int_offset.partition_idx, 1);
    assert_eq!(int_offset.to_string(), "42-1");

    let string_offset = StringOffset::new("42".to_string(), 1);
    assert_eq!(string_offset.offset, bytes("42"));
    assert_eq!(string_offset.partition_idx, 1);
    assert_eq!(string_offset.to_string(), "42-1");

    let offset_int = Offset::Int(int_offset);
    assert_eq!(offset_int.to_string(), "42-1");

    let offset_string = Offset::String(string_offset);
    assert_eq!(offset_string.to_string(), "42-1");
}

#[test]
fn display_of_int_and_string_offsets() {
    assert_eq!(IntOffset::new(42, 1).to_string(), "42-1");
    assert_eq!(StringOffset::new("abc".to_string(), 2).to_string(), "abc-2");
}

#[test]
fn int_offset_display_handles_sign_and_extremes() {
    assert_eq!(IntOffset::new(0, 0).to_string(), "0-0");
    assert_eq!(IntOffset::new(-7, 3).to_string(), "-7-3");
    assert_eq!(IntOffset::new(i64::MAX, u16::MAX).to_string(), "9223372036854775807-65535");
    assert_eq!(IntOffset::new(i64::MIN, 10).to_string(), "-9223372036854775808-10");
    assert_eq!(IntOffset::new(1000, 100).to_string(), "1000-100");
}

#[test]
fn string_offset_display_decodes_multibyte_text() {
    let offset = StringOffset::new("héllo→".to_string(), 7);
    assert_eq!(offset.to_string(), "héllo→-7");
}

#[test]
fn message_id_display_with_negative_index() {
    let id = MessageID { vertex_name: bytes("in"), offset: bytes("9-0"), index: -3 };
    assert_eq!(id.to_string(), "in-9-0--3");
}

#[test]
fn message_type_display_and_numbers() {
    assert_eq!(MessageType::Data.to_string(), "Data");
    assert_eq!(MessageType::WMB.to_string(), "WMB");
    assert_eq!(MessageType::from(0), MessageType::Data);
    assert_eq!(MessageType::from(1), MessageType::WMB);
    assert_eq!(MessageType::from(-5), MessageType::WMB);
    assert_eq!(i32::from(MessageType::Data), 0);
    assert_eq!(i32::from(MessageType::WMB), 1);
    assert_eq!(MessageType::default(), MessageType::Data);
}

#[test]
fn offset_partition_index() {
    assert_eq!(Offset::Int(IntOffset::new(5, 9)).partition_idx(), 9);
    assert_eq!(Offset::String(StringOffset::new("x".to_string(), 4)).partition_idx(), 4);
}

#[test]
fn offset_equality_includes_partition() {
    let a = Offset::Int(IntOffset::new(5, 1));
    let b = Offset::Int(IntOffset::new(5, 2));
    assert_ne!(a, b);
    assert_eq!(a, Offset::Int(IntOffset::new(5, 1)));
    let s = Offset::String(StringOffset::new("5".to_string(), 1));
    assert_ne!(a, s);
    assert_eq!(s, Offset::String(StringOffset { offset: bytes("5"), partition_idx: 1 }));
    assert_ne!(s, Offset::String(StringOffset { offset: bytes("5"), partition_idx: 3 }));
    assert_ne!(s, Offset::String(StringOffset { offset: bytes("51"), partition_idx: 1 }));
}

#[test]
fn offset_order_is_by_offset_within_a_kind() {
    let a = Offset::Int(IntOffset::new(5, 1));
    let b = Offset::Int(IntOffset::new(7, 0));
    assert_eq!(a.partial_cmp(&b), Some(Ordering::Less));
    assert_eq!(b.partial_cmp(&a), Some(Ordering::Greater));
    assert_eq!(a.partial_cmp(&Offset::Int(IntOffset::new(5, 9))), Some(Ordering::Equal));
    assert!(a < b);

    let s = Offset::String(StringOffset::new("abc".to_string(), 0));
    let t = Offset::String(StringOffset::new("abd".to_string(), 0));
    let u = Offset::String(StringOffset::new("ab".to_string(), 0));
    let e = Offset::String(StringOffset::new("".to_string(), 0));
    assert_eq!(s.partial_cmp(&t), Some(Ordering::Less));
    assert_eq!(t.partial_cmp(&s), Some(Ordering::Greater));
    assert_eq!(u.partial_cmp(&s), Some(Ordering::Less));
    assert_eq!(s.partial_cmp(&u), Some(Ordering::Greater));
    assert_eq!(e.partial_cmp(&u), Some(Ordering::Less));
    assert_eq!(s.partial_cmp(&s.clone()), Some(Ordering::Equal));
    // byte order, not numeric order
    let ten = Offset::String(StringOffset::new("10".to_string(), 0));
    let nine = Offset::String(StringOffset::new("9".to_string(), 0));
    assert_eq!(ten.partial_cmp(&nine), Some(Ordering::Less));
}

#[test]
fn offsets_of_different_kinds_do_not_precede_one_another() {
    let a = Offset::Int(IntOffset::new(5, 1));
    let s = Offset::String(StringOffset::new("1".to_string(), 1));
    assert_eq!(a.partial_cmp(&s), Some(Ordering::Equal));
    assert_eq!(s.partial_cmp(&a), Some(Ordering::Equal));
}

#[test]
fn int_and_string_offsets_order_alone() {
    assert_eq!(IntOffset::new(-1, 0).partial_cmp(&IntOffset::new(0, 0)), Some(Ordering::Less));
    assert_eq!(
        StringOffset::new("b".to_string(), 0).partial_cmp(&StringOffset::new("a".to_string(), 5)),
        Some(Ordering::Greater)
    );
}

#[test]
fn offset_clone_and_default() {
    let s = Offset::String(StringOffset::new("abc".to_string(), 3));
    assert_eq!(s.clone(), s);
    assert_eq!(Offset::default(), Offset::Int(IntOffset::new(0, 0)));
}

#[test]
fn dropped_looks_for_the_drop_tag() {
    let mut m = Message::default();
    assert!(!m.dropped());
    m.tags = Some(vec![]);
    assert!(!m.dropped());
    m.tags = Some(vec!["a".to_string(), "b".to_string()]);
    assert!(!m.dropped());
    m.tags = Some(vec!["a".to_string(), DROP.to_string()]);
    assert!(m.dropped());
    m.tags = Some(vec!["U+005C__DROP__".to_string()]);
    assert!(m.dropped());
    m.tags = Some(vec!["U+005C__DROP__ ".to_string()]);
    assert!(!m.dropped());
}

#[test]
fn default_message_is_empty_data_at_the_current_time() {
    let m = Message::default();
    assert_eq!(m.typ, MessageType::Data);
    assert!(m.keys.is_empty());
    assert!(m.tags.is_none());
    assert!(m.value.is_empty());
    assert_eq!(m.offset, Offset::Int(IntOffset::new(0, 0)));
    assert!(m.watermark.is_none());
    assert_eq!(m.id, MessageID::default());
    assert!(m.headers.is_empty());
    assert!(m.metadata.is_none());
    assert!(!m.is_late);
    // the clock was read: the time lies well after the year 2020
    assert!(m.event_time.seconds > 1_600_000_000);
    assert!(m.event_time.nanos < 1_000_000_000);
}

#[test]
fn default_message_id_is_empty() {
    let id = MessageID::default();
    assert!(id.vertex_name.is_empty());
    assert!(id.offset.is_empty());
    assert_eq!(id.index, 0);
    assert_eq!(id.to_string(), "--0");
}

#[test]
fn timestamps_are_ordered_by_seconds_then_nanoseconds() {
    let a = Timestamp::new(10, 5);
    let b = Timestamp::new(10, 6);
    let c = Timestamp::new(11, 0);
    assert!(a.is_before(&b));
    assert!(b.is_before(&c));
    assert!(!b.is_before(&a));
    assert!(!a.is_before(&a));
    assert_eq!(a.earlier(b), a);
    assert_eq!(b.earlier(a), a);
    assert_eq!(a.later(b), b);
    assert_eq!(c.later(b), c);
}

#[test]
fn timestamp_arithmetic_in_milliseconds() {
    assert_eq!(Timestamp::new(10, 0).plus_millis(1500), Timestamp::new(11, 500_000_000));
    assert_eq!(Timestamp::new(10, 700_000_000).plus_millis(300), Timestamp::new(11, 0));
    assert_eq!(Timestamp::new(10, 0).minus_millis(1), Timestamp::new(9, 999_000_000));
    assert_eq!(Timestamp::new(10, 0).minus_millis(10_000), Timestamp::new(0, 0));
    assert_eq!(Timestamp::new(0, 0).minus_millis(1), Timestamp::new(-1, 999_000_000));
    assert_eq!(Timestamp::new(-1, 0).plus_millis(2500), Timestamp::new(1, 500_000_000));
    assert_eq!(Timestamp::new(5, 1).plus_millis(0), Timestamp::new(5, 1));
    // nanoseconds beyond a second are carried into the seconds
    assert_eq!(Timestamp::new(5, 1_500_000_000).plus_millis(0), Timestamp::new(6, 500_000_000));
}

#[test]
fn timestamp_arithmetic_stops_at_the_ends() {
    assert_eq!(
        Timestamp::new(i64::MAX, 0).plus_millis(5000),
        Timestamp::new(i64::MAX, 999_999_999)
    );
    assert_eq!(Timestamp::new(i64::MIN, 5).minus_millis(1000), Timestamp::new(i64::MIN, 0));
    assert_eq!(
        Timestamp::new(0, 0).plus_millis(u64::MAX),
        Timestamp::new(18_446_744_073_709_551, 615_000_000)
    );
}

#[test]
fn envelope_identity_replaces_what_is_not_text() {
    let id = MessageID { vertex_name: vec![0x66, 0xff, 0x6f], offset: bytes("7"), index: 2 };
    let wire = id.to_envelope();
    assert_eq!(wire.vertex_name, "f\u{fffd}o");
    assert_eq!(wire.offset, "7");
    assert_eq!(wire.index, 2);
}

#[test]
fn envelope_carries_kind_lateness_and_metadata() {
    let mut m = Message::default();
    m.typ = MessageType::WMB;
    m.is_late = true;
    m.event_time = Timestamp::new(-2, 1_250_000_000);
    m.headers.insert("h".to_string(), "v".to_string());
    let mut metadata = numaflow_core::message::Metadata::default();
    metadata.previous_vertex = "before".to_string();
    m.metadata = Some(metadata);
    m.tags = Some(vec!["t".to_string()]);

    let envelope = m.to_envelope("here".to_string());
    let header = envelope.header.unwrap();
    assert_eq!(header.kind, 1);
    assert_eq!(
        header.message_info,
        Some(MessageInfo {
            event_time: Some(EventTime { seconds: -1, nanos: 250_000_000 }),
            is_late: true,
        })
    );
    assert_eq!(header.headers.get("h"), Some(&"v".to_string()));
    let handed = header.metadata.unwrap();
    assert_eq!(handed.previous_vertex, "here");
    assert!(handed.sys_metadata.is_empty());
    assert!(handed.user_metadata.is_empty());
}

#[test]
fn read_ack_has_two_outcomes() {
    assert_ne!(ReadAck::Ack, ReadAck::Nak);
}
