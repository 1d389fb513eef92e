//! The relay between the gossip network and the bus: which network messages
//! are unwrapped and republished locally, which local messages go out, and
//! the pings that a bootstrap node sends.
use crate::bus::Bus;
use crate::codec::decode_envelope;
use crate::codec::envelope_wire;
use crate::codec::parse_envelope;
use crate::codec::DecodeError;
use crate::model::event_tag;
use crate::model::ping_tag;
use crate::model::EventModel;
use crate::model::PingModel;
use crate::pubsub::accepts;
use crate::pubsub::deliveries;
use crate::pubsub::envelopes_of;
use crate::pubsub::lemma_own_stream_delivered;
use crate::pubsub::lemma_round_trip;
use crate::pubsub::Payload;
use crate::pubsub::Topic;
use vstd::prelude::*;
use vstd::slice::slice_to_vec;
use vstd::string::StringExecFns;

verus! {

/// How many pings a bootstrap node sends.
pub const BOOTSTRAP_PINGS: u8 = 10;

/// The name of the gossip channel that nodes share.
pub open spec fn room_name() -> Seq<char> {
    seq!['q', 'u', 'i', 'c', '-', 't', 'h', 'e', '-', 'r', 'o', 'o', 'm']
}

/// What the bridge makes of a message from the network: `Ok(Some(b))` to
/// publish `b` on the bus, `Ok(None)` to drop it as not for this node, `Err`
/// for bytes that do not decode.
pub open spec fn relayed(msg: Seq<u8>) -> Result<Option<Seq<u8>>, DecodeError> {
    match parse_envelope(msg) {
        Err(e) => Err(e),
        Ok((outer, p)) => if outer != event_tag() {
            Ok(None)
        } else {
            match EventModel::parse_of(p) {
                Err(e) => Err(e),
                Ok((inner, d)) => if inner != ping_tag() {
                    Ok(None)
                } else {
                    match PingModel::parse_of(d) {
                        Err(e) => Err(e),
                        Ok(v) => Ok(Some(envelope_wire(ping_tag(), PingModel::wire_of(v)))),
                    }
                },
            }
        },
    }
}

/// What the bridge did with a message from the network.
pub enum Inbound {
    /// The nested value was republished on the bus as these bytes.
    Republish(Vec<u8>),
    /// The message is under a tag that this node does not relay.
    Ignored,
    /// The message does not decode.
    Malformed(DecodeError),
}

/// Whether `r` is what the bridge makes of `msg`.
pub open spec fn inbound_matches(r: Inbound, msg: Seq<u8>) -> bool {
    match relayed(msg) {
        Err(e) => r is Malformed && r->Malformed_0 == e,
        Ok(None) => r is Ignored,
        Ok(Some(b)) => r is Republish && r->Republish_0@ == b,
    }
}

/// The name of the gossip channel that nodes share.
pub fn gossip_channel() -> (r: String)
    ensures
        r@ == room_name(),
{
    proof {
        reveal_strlit("quic-the-room");
    }
    let r = String::from_str("quic-the-room");
    assert(r@ =~= room_name());
    r
}

/// Unwraps a message from the network: an event that nests a ping gives the
/// ping's envelope, to be published on the bus under the ping tag.
pub fn inbound(msg: &[u8]) -> (r: Inbound)
    ensures
        inbound_matches(r, msg@),
{
    match decode_envelope(msg) {
        Err(e) => Inbound::Malformed(e),
        Ok((outer, payload)) => {
            if !EventModel::is_topic(&outer) {
                return Inbound::Ignored;
            }
            match EventModel::from_wire(payload.as_slice()) {
                Err(e) => Inbound::Malformed(e),
                Ok(event) => {
                    if !PingModel::is_topic(&event.topic) {
                        return Inbound::Ignored;
                    }
                    match PingModel::from_wire(event.data.as_slice()) {
                        Err(e) => Inbound::Malformed(e),
                        Ok(ping) => {
                            let topic = Topic::<PingModel>::new(PingModel::get_topic());
                            Inbound::Republish(topic.envelope(&ping))
                        },
                    }
                },
            }
        },
    }
}

/// Unwraps a message from the network and publishes what it nests on the
/// bus; nothing is published for a message that is dropped.
pub fn relay_inbound(bus: &mut Bus, msg: &[u8]) -> (r: Inbound)
    ensures
        inbound_matches(r, msg@),
        match r {
            Inbound::Republish(b) => final(bus)@ == old(bus)@.push(b@),
            _ => final(bus)@ == old(bus)@,
        },
        final(bus).channel() == old(bus).channel(),
{
    match inbound(msg) {
        Inbound::Republish(b) => {
            let copy = slice_to_vec(b.as_slice());
            bus.publish(copy);
            Inbound::Republish(b)
        },
        Inbound::Ignored => Inbound::Ignored,
        Inbound::Malformed(e) => Inbound::Malformed(e),
    }
}

/// Picks the local messages that go out on the network: an envelope that
/// decodes as an event goes out as it is.
pub fn outbound(msg: Vec<u8>) -> (r: Option<Vec<u8>>)
    ensures
        r is Some <==> accepts::<EventModel>(event_tag(), msg@) matches Some(Ok(_)),
        r is Some ==> r->Some_0@ == msg@,
{
    let topic = Topic::<EventModel>::new(EventModel::get_topic());
    match decode_envelope(msg.as_slice()) {
        Err(_) => None,
        Ok((tag, payload)) => {
            if tag != topic.topic {
                return None;
            }
            match EventModel::from_wire(payload.as_slice()) {
                Err(_) => None,
                Ok(_) => Some(msg),
            }
        },
    }
}

/// The event that carries the ping with content `i`.
pub fn bootstrap_event(i: u8) -> (r: EventModel)
    ensures
        r@ == (ping_tag(), seq![i]),
{
    let ping = PingModel { rand: i };
    EventModel { topic: PingModel::get_topic(), data: ping.to_wire() }
}

/// The events that a bootstrap node sends, in order: pings with contents
/// 0, 1, ... up to the count of bootstrap pings, each nested in an event.
pub fn bootstrap_events() -> (r: Vec<EventModel>)
    ensures
        r@.len() == BOOTSTRAP_PINGS,
        forall|k: int| 0 <= k < r@.len() ==> #[trigger] r@[k]@ == (ping_tag(), seq![k as u8]),
{
    let mut r: Vec<EventModel> = Vec::new();
    let mut i: u8 = 0;
    while i < BOOTSTRAP_PINGS
        invariant
            i <= BOOTSTRAP_PINGS,
            r@.len() == i,
            forall|k: int| 0 <= k < r@.len() ==> #[trigger] r@[k]@ == (ping_tag(), seq![k as u8]),
        decreases BOOTSTRAP_PINGS - i,
    {
        r.push(bootstrap_event(i));
        i = i + 1;
    }
    r
}

/// Nested unwrap: an event envelope that nests a ping, coming in from the
/// network, is republished as that ping's envelope, which a handle bound to
/// the ping tag delivers as the same ping.
pub proof fn lemma_nested_unwrap(v: u8)
    ensures
        relayed(
            envelope_wire(
                event_tag(),
                EventModel::wire_of((ping_tag(), PingModel::wire_of(v))),
            ),
        ) == Ok::<Option<Seq<u8>>, DecodeError>(
            Some(envelope_wire(ping_tag(), PingModel::wire_of(v))),
        ),
        accepts::<PingModel>(ping_tag(), envelope_wire(ping_tag(), PingModel::wire_of(v)))
            == Some(Ok::<u8, DecodeError>(v)),
{
    let ev = (ping_tag(), PingModel::wire_of(v));
    lemma_ascii_tags();
    lemma_round_trip::<EventModel>(event_tag(), ev);
    lemma_round_trip::<PingModel>(ping_tag(), v);
}

/// Malformed input: bytes from the network that are no envelope are dropped
/// as malformed, so the relay publishes nothing for them.
pub proof fn lemma_malformed_dropped(msg: Seq<u8>, r: Inbound)
    requires
        parse_envelope(msg) is Err,
        inbound_matches(r, msg),
    ensures
        relayed(msg) is Err,
        r is Malformed,
        !(r is Republish),
{
}

/// The contents of the bootstrap pings, in the order they are sent.
pub open spec fn bootstrap_pings() -> Seq<u8> {
    Seq::new(BOOTSTRAP_PINGS as nat, |k: int| k as u8)
}

/// Bootstrap sequence: each event that a bootstrap node sends is relayed by a
/// receiving node as the envelope of the ping it nests, and a handle bound to
/// the ping tag reading those envelopes takes the pings 0, 1, ... in order,
/// each once.
pub proof fn lemma_bootstrap_sequence(evs: Seq<(Seq<char>, Seq<u8>)>)
    requires
        evs.len() == BOOTSTRAP_PINGS,
        forall|k: int| 0 <= k < evs.len() ==> #[trigger] evs[k] == (ping_tag(), seq![k as u8]),
    ensures
        forall|k: int|
            0 <= k < evs.len() ==> relayed(
                envelope_wire(event_tag(), #[trigger] EventModel::wire_of(evs[k])),
            ) == Ok::<Option<Seq<u8>>, DecodeError>(
                Some(envelopes_of::<PingModel>(ping_tag(), bootstrap_pings())[k]),
            ),
        deliveries::<PingModel>(ping_tag(), envelopes_of::<PingModel>(ping_tag(), bootstrap_pings()))
            == bootstrap_pings().map_values(|v: u8| Ok::<u8, DecodeError>(v)),
{
    assert forall|k: int| 0 <= k < evs.len() implies relayed(
        envelope_wire(event_tag(), #[trigger] EventModel::wire_of(evs[k])),
    ) == Ok::<Option<Seq<u8>>, DecodeError>(
        Some(envelopes_of::<PingModel>(ping_tag(), bootstrap_pings())[k]),
    ) by {
        lemma_nested_unwrap(k as u8);
        assert(PingModel::wire_of(k as u8) == seq![k as u8]);
    }
    lemma_ascii_tags();
    lemma_own_stream_delivered::<PingModel>(ping_tag(), bootstrap_pings());
}

proof fn lemma_ascii_tags()
    ensures
        vstd::utf8::encode_utf8(ping_tag()).len() == 4,
        vstd::utf8::encode_utf8(event_tag()).len() == 5,
{
    vstd::utf8::is_ascii_chars_encode_utf8(ping_tag());
    vstd::utf8::is_ascii_chars_encode_utf8(event_tag());
}

} // verus!
