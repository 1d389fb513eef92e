use tokio::sync::broadcast::error::TryRecvError;
use topic_bridge::bridge::{
    bootstrap_event, bootstrap_events, gossip_channel, inbound, outbound, relay_inbound, Inbound,
    BOOTSTRAP_PINGS,
};
use topic_bridge::bus::{Bus, Delivery, BUS_CAPACITY};
use topic_bridge::codec::{encode_envelope, DecodeError};
use topic_bridge::model::{EventModel, PingModel};
use topic_bridge::pubsub::{Payload, Step, Topic};

fn ping_envelope(v: u8) -> Vec<u8> {
    Topic::<PingModel>::new(PingModel::get_topic()).envelope(&PingModel { rand: v })
}

fn event_envelope(v: u8) -> Vec<u8> {
    Topic::<EventModel>::new(EventModel::get_topic()).envelope(&bootstrap_event(v))
}

#[test]
fn gossip_channel_name() {
    assert_eq!(gossip_channel(), "quic-the-room");
}

#[test]
fn nested_ping_is_republished_under_ping_tag() {
    match inbound(&event_envelope(42)) {
        Inbound::Republish(b) => {
            assert_eq!(b, ping_envelope(42));
            let ping = Topic::<PingModel>::new(PingModel::get_topic());
            match ping.on_delivery(Delivery::Message(b)) {
                Step::Deliver(p) => assert_eq!(p.rand, 42),
                _ => panic!("ping not delivered"),
            }
        }
        _ => panic!("nested ping not republished"),
    }
}

#[test]
fn nested_ping_reaches_ping_subscriber_through_bus() {
    let mut bus = Bus::new(BUS_CAPACITY);
    let mut rx = bus.sender().subscribe();
    let r = relay_inbound(&mut bus, &event_envelope(5));
    assert!(matches!(r, Inbound::Republish(_)));
    let msg = rx.try_recv().unwrap();
    let ping = Topic::<PingModel>::new(PingModel::get_topic());
    match ping.on_delivery(Delivery::Message(msg)) {
        Step::Deliver(p) => assert_eq!(p.rand, 5),
        _ => panic!("ping not delivered"),
    }
}

#[test]
fn inbound_ignores_other_tags() {
    // A bare ping envelope is not a nested event.
    assert!(matches!(inbound(&ping_envelope(1)), Inbound::Ignored));
    // An event nesting something other than a ping.
    let ev = EventModel { topic: "other".to_string(), data: vec![1, 2] };
    let msg = Topic::<EventModel>::new(EventModel::get_topic()).envelope(&ev);
    assert!(matches!(inbound(&msg), Inbound::Ignored));
}

#[test]
fn malformed_network_input_is_dropped_without_publish() {
    let mut bus = Bus::new(BUS_CAPACITY);
    let mut rx = bus.sender().subscribe();
    let r = relay_inbound(&mut bus, b"definitely not an envelope");
    assert!(matches!(r, Inbound::Malformed(_)));
    assert!(matches!(relay_inbound(&mut bus, &[]), Inbound::Malformed(DecodeError::Truncated)));
    assert!(matches!(rx.try_recv(), Err(TryRecvError::Empty)));
}

#[test]
fn nested_ping_with_empty_data_is_malformed() {
    let ev = EventModel { topic: "ping".to_string(), data: vec![] };
    let msg = Topic::<EventModel>::new(EventModel::get_topic()).envelope(&ev);
    assert!(matches!(inbound(&msg), Inbound::Malformed(DecodeError::Truncated)));
}

#[test]
fn outbound_passes_event_envelopes_verbatim() {
    let msg = event_envelope(3);
    assert_eq!(outbound(msg.clone()), Some(msg));
    assert_eq!(outbound(ping_envelope(3)), None);
    assert_eq!(outbound(vec![1, 2, 3]), None);
    assert_eq!(outbound(encode_envelope("event", &[0, 1])), None);
}

#[test]
fn bootstrap_events_are_ten_sequential_pings() {
    let evs = bootstrap_events();
    assert_eq!(evs.len(), BOOTSTRAP_PINGS as usize);
    assert_eq!(evs.len(), 10);
    for (i, ev) in evs.iter().enumerate() {
        assert_eq!(ev.topic, "ping");
        assert_eq!(ev.data, vec![i as u8]);
    }
}

#[test]
fn bootstrap_sequence_is_observed_in_order() {
    let mut bus = Bus::new(BUS_CAPACITY);
    let mut local = bus.sender().subscribe();
    let events = Topic::<EventModel>::new(EventModel::get_topic());
    for ev in bootstrap_events() {
        assert_eq!(events.publish(&mut bus, &ev), 1);
    }
    // The bridge sends each event out; another node relays it to its bus.
    let mut remote = Bus::new(BUS_CAPACITY);
    let mut remote_rx = remote.sender().subscribe();
    for _ in 0..10 {
        let msg = local.try_recv().unwrap();
        let wire = outbound(msg).unwrap();
        assert!(matches!(relay_inbound(&mut remote, &wire), Inbound::Republish(_)));
    }
    let ping = Topic::<PingModel>::new(PingModel::get_topic());
    let mut seen = Vec::new();
    while let Ok(msg) = remote_rx.try_recv() {
        match ping.on_delivery(Delivery::Message(msg)) {
            Step::Deliver(p) => seen.push(p.rand),
            _ => panic!("unexpected step"),
        }
    }
    assert_eq!(seen, (0..10).collect::<Vec<u8>>());
}

#[test]
fn lagging_subscriber_observes_lagged() {
    let mut bus = Bus::new(32);
    let mut rx = bus.sender().subscribe();
    let ping = Topic::<PingModel>::new(PingModel::get_topic());
    for i in 0..40u8 {
        ping.publish(&mut bus, &PingModel { rand: i });
    }
    let lost = match rx.try_recv() {
        Err(TryRecvError::Lagged(n)) => n,
        other => panic!("expected a lag, got {:?}", other.is_ok()),
    };
    assert_eq!(lost, 8);
    assert!(matches!(ping.on_delivery(Delivery::Lagged(lost)), Step::Lagged(8)));
    // What is left after the lag is the newest messages, in order.
    match ping.on_delivery(Delivery::Message(rx.try_recv().unwrap())) {
        Step::Deliver(p) => assert_eq!(p.rand, 8),
        _ => panic!("expected a ping"),
    }
}

#[test]
fn publish_without_subscribers_is_no_failure() {
    let mut bus = Bus::new(BUS_CAPACITY);
    let ping = Topic::<PingModel>::new(PingModel::get_topic());
    assert_eq!(ping.publish(&mut bus, &PingModel { rand: 1 }), 0);
    let _rx = bus.sender().subscribe();
    assert_eq!(ping.publish(&mut bus, &PingModel { rand: 1 }), 1);
}

#[test]
fn subscriber_attached_late_misses_earlier_messages() {
    let mut bus = Bus::new(BUS_CAPACITY);
    let ping = Topic::<PingModel>::new(PingModel::get_topic());
    let _first = bus.sender().subscribe();
    ping.publish(&mut bus, &PingModel { rand: 1 });
    let mut late = bus.sender().subscribe();
    ping.publish(&mut bus, &PingModel { rand: 2 });
    let msg = late.try_recv().unwrap();
    assert_eq!(msg, ping_envelope(2));
}

#[test]
fn handles_share_one_bus() {
    let bus = Bus::new(BUS_CAPACITY);
    let mut rx = bus.sender().subscribe();
    let mut other = bus.handle();
    let ping = Topic::<PingModel>::new(PingModel::get_topic());
    assert_eq!(ping.publish(&mut other, &PingModel { rand: 6 }), 1);
    assert_eq!(rx.try_recv().unwrap(), ping_envelope(6));
}

#[test]
fn event_wire_round_trip() {
    let ev = EventModel { topic: "ping".to_string(), data: vec![9] };
    let bytes = ev.to_wire();
    let back = EventModel::from_wire(&bytes).unwrap();
    assert_eq!(back.topic, "ping");
    assert_eq!(back.data, vec![9]);
}

#[test]
fn bus_capacity_rounds_up_to_power_of_two() {
    let mut bus = Bus::new(20);
    let mut rx = bus.sender().subscribe();
    let ping = Topic::<PingModel>::new(PingModel::get_topic());
    for i in 0..32u8 {
        ping.publish(&mut bus, &PingModel { rand: i });
    }
    assert_eq!(rx.try_recv().unwrap(), ping_envelope(0));
    let mut late = bus.sender().subscribe();
    for i in 0..33u8 {
        ping.publish(&mut bus, &PingModel { rand: i });
    }
    assert!(matches!(late.try_recv(), Err(TryRecvError::Lagged(1))));
}

#[test]
fn nested_ping_with_extra_bytes_is_malformed() {
    let ev = EventModel { topic: "ping".to_string(), data: vec![1, 2] };
    let msg = Topic::<EventModel>::new(EventModel::get_topic()).envelope(&ev);
    assert!(matches!(inbound(&msg), Inbound::Malformed(DecodeError::TrailingBytes)));
    let mut extra = event_envelope(1);
    extra.push(9);
    assert!(matches!(inbound(&extra), Inbound::Malformed(DecodeError::TrailingBytes)));
    assert_eq!(outbound(extra), None);
}
