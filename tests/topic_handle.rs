use topic_bridge::bus::Delivery;
use topic_bridge::codec::{decode_envelope, encode_envelope, read_bytes, read_str, write_bytes, write_str, DecodeError};
use topic_bridge::model::{EventModel, PingModel};
use topic_bridge::pubsub::{Payload, Step, Topic};

#[test]
fn topic_tags() {
    assert_eq!(PingModel::get_topic(), "ping");
    assert_eq!(EventModel::get_topic(), "event");
    assert!(PingModel::is_topic(&"ping".to_string()));
    assert!(!PingModel::is_topic(&"event".to_string()));
    assert!(EventModel::is_topic(&"event".to_string()));
    assert!(!EventModel::is_topic(&"Event".to_string()));
}

#[test]
fn envelope_exact_bytes() {
    let b = encode_envelope("ping", &[7]);
    assert_eq!(b, vec![4, 0, 0, 0, 0, 0, 0, 0, b'p', b'i', b'n', b'g', 1, 7]);
    let t = Topic::<PingModel>::new("ping".to_string());
    assert_eq!(t.envelope(&PingModel { rand: 7 }), b);
}

#[test]
fn event_exact_bytes() {
    let ev = EventModel { topic: "ab".to_string(), data: vec![1, 2, 3] };
    assert_eq!(
        ev.to_wire(),
        vec![2, 0, 0, 0, 0, 0, 0, 0, b'a', b'b', 3, 0, 0, 0, 0, 0, 0, 0, 1, 2, 3]
    );
}

#[test]
fn round_trip_of_envelope_and_value() {
    for v in [0u8, 1, 200, 255] {
        let payload = PingModel { rand: v }.to_wire();
        let b = encode_envelope("ping", &payload);
        let (tag, p) = decode_envelope(&b).unwrap();
        assert_eq!(tag, "ping");
        assert_eq!(p, payload);
        assert_eq!(PingModel::from_wire(&p).unwrap().rand, v);
    }
    let ev = EventModel { topic: "héllo ✓".to_string(), data: vec![0, 255, 7] };
    let b = encode_envelope("event", &ev.to_wire());
    let (tag, p) = decode_envelope(&b).unwrap();
    assert_eq!(tag, "event");
    let back = EventModel::from_wire(&p).unwrap();
    assert_eq!(back.topic, "héllo ✓");
    assert_eq!(back.data, vec![0, 255, 7]);
}

#[test]
fn nested_envelope_round_trips_byte_exact() {
    let inner = encode_envelope("ping", &[3]);
    let outer = encode_envelope("event", &inner);
    let (tag, p) = decode_envelope(&outer).unwrap();
    assert_eq!(tag, "event");
    assert_eq!(p, inner);
}

#[test]
fn decode_errors() {
    assert_eq!(decode_envelope(&[]), Err(DecodeError::Truncated));
    assert_eq!(decode_envelope(&[4, 0, 0, 0, 0, 0, 0, 0, b'p']), Err(DecodeError::Truncated));
    assert_eq!(
        decode_envelope(&[4, 0, 0, 0, 0, 0, 0, 0, b'p', b'i', b'n', b'g']),
        Err(DecodeError::Truncated)
    );
    assert_eq!(
        decode_envelope(&[1, 0, 0, 0, 0, 0, 0, 0, 0xff, 1, 7]),
        Err(DecodeError::InvalidUtf8)
    );
    assert_eq!(
        decode_envelope(&[4, 0, 0, 0, 0, 0, 0, 0, b'p', b'i', b'n', b'g', 0]),
        Err(DecodeError::MissingPayload)
    );
    assert_eq!(
        decode_envelope(&[4, 0, 0, 0, 0, 0, 0, 0, b'p', b'i', b'n', b'g', 2, 7]),
        Err(DecodeError::InvalidTag)
    );
    assert_eq!(
        decode_envelope(&[0xff, 0xff, 0xff, 0xff, 0xff, 0xff, 0xff, 0xff, 1]),
        Err(DecodeError::Truncated)
    );
    assert_eq!(PingModel::from_wire(&[]).map(|p| p.rand), Err(DecodeError::Truncated));
}

#[test]
fn fields_read_back() {
    let mut out = Vec::new();
    write_str(&mut out, "xyz");
    write_bytes(&mut out, &[5, 6]);
    out.push(99);
    let (s, rest) = read_str(&out).unwrap();
    assert_eq!(s, "xyz");
    let (f, rest) = read_bytes(rest).unwrap();
    assert_eq!(f, &[5, 6]);
    assert_eq!(rest, &[99]);
    // A length of 256 is written little-endian.
    let mut big = Vec::new();
    write_bytes(&mut big, &[0u8; 256]);
    assert_eq!(&big[..8], &[0, 1, 0, 0, 0, 0, 0, 0]);
    assert_eq!(big.len(), 264);
}

#[test]
fn handle_new_is_bound_to_tag() {
    let t = Topic::<PingModel>::new("ping".to_string());
    assert_eq!(t.topic, "ping");
    assert!(t.data.is_none());
}

#[test]
fn on_delivery_steps() {
    let ping = Topic::<PingModel>::new(PingModel::get_topic());
    let m = encode_envelope("ping", &[4]);
    assert!(matches!(ping.on_delivery(Delivery::Message(m)), Step::Deliver(PingModel { rand: 4 })));
    let other = encode_envelope("event", &[4]);
    assert!(matches!(ping.on_delivery(Delivery::Message(other)), Step::Skip));
    assert!(matches!(
        ping.on_delivery(Delivery::Message(vec![1, 2])),
        Step::Malformed(DecodeError::Truncated)
    ));
    let empty = encode_envelope("ping", &[]);
    assert!(matches!(
        ping.on_delivery(Delivery::Message(empty)),
        Step::Malformed(DecodeError::Truncated)
    ));
    assert!(matches!(ping.on_delivery(Delivery::Lagged(3)), Step::Lagged(3)));
    assert!(matches!(ping.on_delivery(Delivery::Closed), Step::Closed));
}

#[test]
fn ping_subscriber_takes_only_pings_in_order() {
    let ping = Topic::<PingModel>::new(PingModel::get_topic());
    let event = Topic::<EventModel>::new(EventModel::get_topic());
    let mut stream = Vec::new();
    for i in 0..6u8 {
        stream.push(event.envelope(&EventModel { topic: "ping".to_string(), data: vec![100 + i] }));
        stream.push(ping.envelope(&PingModel { rand: i }));
    }
    let mut got = Vec::new();
    for m in stream {
        match ping.on_delivery(Delivery::Message(m)) {
            Step::Deliver(p) => got.push(p.rand),
            Step::Skip => {}
            _ => panic!("unexpected step"),
        }
    }
    assert_eq!(got, vec![0, 1, 2, 3, 4, 5]);
}

#[test]
fn leftover_bytes_are_rejected() {
    assert_eq!(PingModel::from_wire(&[7, 0]).map(|p| p.rand), Err(DecodeError::TrailingBytes));
    let mut ev = EventModel { topic: "ping".to_string(), data: vec![1] }.to_wire();
    ev.push(0);
    assert!(matches!(EventModel::from_wire(&ev), Err(DecodeError::TrailingBytes)));
    let ping = Topic::<PingModel>::new(PingModel::get_topic());
    let m = encode_envelope("ping", &[7, 0]);
    assert!(matches!(
        ping.on_delivery(Delivery::Message(m)),
        Step::Malformed(DecodeError::TrailingBytes)
    ));
}
