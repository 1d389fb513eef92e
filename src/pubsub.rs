//! Typed handles over the shared bus: each is bound to one topic tag and one
//! payload type, encodes what it publishes and picks out what it receives.
use crate::bus::Bus;
use crate::bus::Delivery;
use crate::codec::decode_envelope;
use crate::codec::encode_envelope;
use crate::codec::envelope_wire;
use crate::codec::parse_envelope;
use crate::codec::lemma_envelope_round_trip;
use crate::codec::lemma_envelope_parsed;
use crate::codec::DecodeError;
use vstd::utf8::encode_utf8;
use vstd::prelude::*;

verus! {

/// A value that travels on the bus as bytes.
pub trait Payload: Sized + View {
    /// The bytes of a value.
    spec fn wire_of(v: Self::V) -> Seq<u8>;

    /// The value that bytes decode to, if any.
    spec fn parse_of(b: Seq<u8>) -> Result<Self::V, DecodeError>;

    /// Whether a value's fields fit the wire format's length prefixes.
    spec fn encodable(v: Self::V) -> bool;

    /// Decoding the bytes of a value gives that value back.
    proof fn lemma_parse_wire(v: Self::V)
        requires
            Self::encodable(v),
        ensures
            Self::parse_of(Self::wire_of(v)) == Ok::<Self::V, DecodeError>(v),
    ;

    /// Bytes that decode to a value are exactly that value's bytes.
    proof fn lemma_parsed_wire(b: Seq<u8>)
        requires
            Self::parse_of(b) is Ok,
        ensures
            b == Self::wire_of(Self::parse_of(b)->Ok_0),
    ;

    /// Encodes the value.
    fn to_wire(&self) -> (r: Vec<u8>)
        ensures
            r@ == Self::wire_of(self@),
            Self::encodable(self@),
    ;

    /// Decodes a value from the start of `b`.
    fn from_wire(b: &[u8]) -> (r: Result<Self, DecodeError>)
        ensures
            match r {
                Ok(v) => Self::parse_of(b@) == Ok::<Self::V, DecodeError>(v@),
                Err(e) => Self::parse_of(b@) == Err::<Self::V, DecodeError>(e),
            },
    ;
}

/// What a handle bound to `tag` makes of one message: `None` when the
/// message is under another tag, else the decoded value or why it failed.
pub open spec fn accepts<T: Payload>(tag: Seq<char>, msg: Seq<u8>) -> Option<
    Result<T::V, DecodeError>,
> {
    match parse_envelope(msg) {
        Err(e) => Some(Err(e)),
        Ok((t, p)) => if t == tag {
            Some(T::parse_of(p))
        } else {
            None
        },
    }
}

/// What a handle bound to `tag` takes from a stream of messages, in order.
pub open spec fn deliveries<T: Payload>(tag: Seq<char>, stream: Seq<Seq<u8>>) -> Seq<
    Result<T::V, DecodeError>,
>
    decreases stream.len(),
{
    if stream.len() == 0 {
        Seq::empty()
    } else {
        let head = match accepts::<T>(tag, stream[0]) {
            None => Seq::empty(),
            Some(r) => seq![r],
        };
        head + deliveries::<T>(tag, stream.drop_first())
    }
}

/// What a subscriber does with one event of the bus.
pub enum Step<T> {
    /// A value under the handle's tag arrived.
    Deliver(T),
    /// A message under another tag arrived: keep waiting.
    Skip,
    /// A message could not be decoded.
    Malformed(DecodeError),
    /// The subscriber fell behind and this many messages were lost.
    Lagged(u64),
    /// The bus is gone.
    Closed,
}

/// A handle bound to one topic tag and one payload type.
pub struct Topic<T> {
    pub topic: String,
    pub data: Option<T>,
}

impl<T: Payload> Topic<T> {
    /// A handle bound to `topic`.
    pub fn new(topic: String) -> (r: Self)
        ensures
            r.topic@ == topic@,
            r.data is None,
    {
        Topic { topic, data: None }
    }

    /// The envelope that carries `data` under this handle's tag.
    pub fn envelope(&self, data: &T) -> (r: Vec<u8>)
        ensures
            r@ == envelope_wire(self.topic@, T::wire_of(data@)),
    {
        let payload = data.to_wire();
        encode_envelope(self.topic.as_str(), payload.as_slice())
    }

    /// Publishes `data` on the bus under this handle's tag; gives the count of
    /// receivers that the bus reports, 0 when there were none.
    pub fn publish(&self, bus: &mut Bus, data: &T) -> (r: usize)
        ensures
            final(bus)@ == old(bus)@.push(envelope_wire(self.topic@, T::wire_of(data@))),
            final(bus).channel() == old(bus).channel(),
    {
        bus.publish(self.envelope(data))
    }

    /// Decides what a subscriber bound to this handle does with one event of
    /// the bus.
    pub fn on_delivery(&self, d: Delivery) -> (r: Step<T>)
        ensures
            match d {
                Delivery::Message(m) => match accepts::<T>(self.topic@, m@) {
                    None => r is Skip,
                    Some(Ok(v)) => r is Deliver && r->Deliver_0@ == v,
                    Some(Err(e)) => r is Malformed && r->Malformed_0 == e,
                },
                Delivery::Lagged(n) => r is Lagged && r->Lagged_0 == n,
                Delivery::Closed => r is Closed,
            },
    {
        match d {
            Delivery::Message(m) => match decode_envelope(m.as_slice()) {
                Err(e) => Step::Malformed(e),
                Ok((tag, payload)) => if tag == self.topic {
                    match T::from_wire(payload.as_slice()) {
                        Ok(v) => Step::Deliver(v),
                        Err(e) => Step::Malformed(e),
                    }
                } else {
                    Step::Skip
                },
            },
            Delivery::Lagged(n) => Step::Lagged(n),
            Delivery::Closed => Step::Closed,
        }
    }
}

/// Round trip: the envelope of a value under `tag` decodes to `tag` and the
/// value's own bytes, those bytes decode to the value, and a handle bound to
/// `tag` delivers that value.
pub proof fn lemma_round_trip<T: Payload>(tag: Seq<char>, v: T::V)
    requires
        encode_utf8(tag).len() < 0x1_0000_0000_0000_0000,
        T::encodable(v),
    ensures
        parse_envelope(envelope_wire(tag, T::wire_of(v))) == Ok::<
            (Seq<char>, Seq<u8>),
            DecodeError,
        >((tag, T::wire_of(v))),
        T::parse_of(T::wire_of(v)) == Ok::<T::V, DecodeError>(v),
        accepts::<T>(tag, envelope_wire(tag, T::wire_of(v))) == Some(
            Ok::<T::V, DecodeError>(v),
        ),
{
    lemma_envelope_round_trip(tag, T::wire_of(v));
    T::lemma_parse_wire(v);
}

/// A handle delivers a value only from a message that is exactly the
/// envelope of that value under the handle's tag: nothing before, after or
/// inside it differs.
pub proof fn lemma_delivered_was_encoded<T: Payload>(tag: Seq<char>, msg: Seq<u8>, v: T::V)
    requires
        accepts::<T>(tag, msg) == Some(Ok::<T::V, DecodeError>(v)),
    ensures
        msg == envelope_wire(tag, T::wire_of(v)),
{
    lemma_envelope_parsed(msg);
    let p = parse_envelope(msg)->Ok_0.1;
    T::lemma_parsed_wire(p);
}

/// What a handle takes from two streams one after the other is what it takes
/// from the first, then what it takes from the second.
pub proof fn lemma_deliveries_append<T: Payload>(
    tag: Seq<char>,
    s1: Seq<Seq<u8>>,
    s2: Seq<Seq<u8>>,
)
    ensures
        deliveries::<T>(tag, s1 + s2) == deliveries::<T>(tag, s1) + deliveries::<T>(tag, s2),
    decreases s1.len(),
{
    if s1.len() == 0 {
        assert(s1 + s2 =~= s2);
    } else {
        lemma_deliveries_append::<T>(tag, s1.drop_first(), s2);
        assert((s1 + s2).drop_first() =~= s1.drop_first() + s2);
        assert((s1 + s2)[0] == s1[0]);
    }
}

/// Tag isolation: in any stream, an envelope published under another tag
/// than the handle's is skipped, and the handle takes the rest in order.
pub proof fn lemma_other_tag_skipped<T: Payload>(
    tag: Seq<char>,
    other: Seq<char>,
    payload: Seq<u8>,
    before: Seq<Seq<u8>>,
    after: Seq<Seq<u8>>,
)
    requires
        other != tag,
        encode_utf8(other).len() < 0x1_0000_0000_0000_0000,
    ensures
        deliveries::<T>(tag, before + seq![envelope_wire(other, payload)] + after)
            == deliveries::<T>(tag, before + after),
{
    let m = envelope_wire(other, payload);
    lemma_envelope_round_trip(other, payload);
    lemma_deliveries_append::<T>(tag, before, seq![m]);
    lemma_deliveries_append::<T>(tag, before + seq![m], after);
    lemma_deliveries_append::<T>(tag, before, after);
    assert(seq![m].drop_first() =~= Seq::<Seq<u8>>::empty());
    assert(accepts::<T>(tag, m) is None);
    assert(deliveries::<T>(tag, Seq::empty()) =~= Seq::empty());
    assert(deliveries::<T>(tag, seq![m]) =~= Seq::empty());
    assert(deliveries::<T>(tag, before) + deliveries::<T>(tag, seq![m]) =~= deliveries::<T>(
        tag,
        before,
    ));
}

/// In any stream, a value published under the handle's own tag is delivered,
/// between what comes before it and what comes after it.
pub proof fn lemma_own_tag_delivered<T: Payload>(
    tag: Seq<char>,
    v: T::V,
    before: Seq<Seq<u8>>,
    after: Seq<Seq<u8>>,
)
    requires
        encode_utf8(tag).len() < 0x1_0000_0000_0000_0000,
        T::encodable(v),
    ensures
        deliveries::<T>(tag, before + seq![envelope_wire(tag, T::wire_of(v))] + after)
            == deliveries::<T>(tag, before) + seq![Ok::<T::V, DecodeError>(v)] + deliveries::<T>(
            tag,
            after,
        ),
{
    let m = envelope_wire(tag, T::wire_of(v));
    lemma_round_trip::<T>(tag, v);
    lemma_deliveries_append::<T>(tag, before, seq![m]);
    lemma_deliveries_append::<T>(tag, before + seq![m], after);
    assert(seq![m].drop_first() =~= Seq::<Seq<u8>>::empty());
    assert(deliveries::<T>(tag, Seq::empty()) =~= Seq::empty());
    assert(deliveries::<T>(tag, seq![m]) =~= seq![Ok::<T::V, DecodeError>(v)]);
}

/// The envelopes of `vs` under `tag`, in order.
pub open spec fn envelopes_of<T: Payload>(tag: Seq<char>, vs: Seq<T::V>) -> Seq<Seq<u8>> {
    vs.map_values(|v: T::V| envelope_wire(tag, T::wire_of(v)))
}

/// A stream that alternates: for each `k`, `others[k]` under the tag `other`,
/// then the value `vs[k]` under `tag`.
pub open spec fn alternating<T: Payload>(
    tag: Seq<char>,
    other: Seq<char>,
    others: Seq<Seq<u8>>,
    vs: Seq<T::V>,
) -> Seq<Seq<u8>>
    decreases vs.len(),
{
    if vs.len() == 0 || others.len() == 0 {
        Seq::empty()
    } else {
        seq![envelope_wire(other, others[0]), envelope_wire(tag, T::wire_of(vs[0]))]
            + alternating::<T>(tag, other, others.drop_first(), vs.drop_first())
    }
}

/// A handle takes every value of a stream of envelopes under its own tag, in
/// order.
pub proof fn lemma_own_stream_delivered<T: Payload>(tag: Seq<char>, vs: Seq<T::V>)
    requires
        encode_utf8(tag).len() < 0x1_0000_0000_0000_0000,
        forall|k: int| 0 <= k < vs.len() ==> T::encodable(#[trigger] vs[k]),
    ensures
        deliveries::<T>(tag, envelopes_of::<T>(tag, vs)) == vs.map_values(
            |v: T::V| Ok::<T::V, DecodeError>(v),
        ),
    decreases vs.len(),
{
    let s = envelopes_of::<T>(tag, vs);
    if vs.len() == 0 {
        assert(s =~= Seq::<Seq<u8>>::empty());
        assert(vs.map_values(|v: T::V| Ok::<T::V, DecodeError>(v)) =~= Seq::empty());
    } else {
        let rest = vs.drop_first();
        assert forall|k: int| 0 <= k < rest.len() implies T::encodable(#[trigger] rest[k]) by {
            assert(rest[k] == vs[k + 1]);
        }
        lemma_own_stream_delivered::<T>(tag, rest);
        assert(T::encodable(vs[0]));
        lemma_own_tag_delivered::<T>(tag, vs[0], Seq::empty(), envelopes_of::<T>(tag, rest));
        assert(s =~= Seq::<Seq<u8>>::empty() + seq![envelope_wire(tag, T::wire_of(vs[0]))]
            + envelopes_of::<T>(tag, rest));
        assert(deliveries::<T>(tag, Seq::empty()) =~= Seq::empty());
        assert(vs.map_values(|v: T::V| Ok::<T::V, DecodeError>(v)) =~= Seq::<
            Result<T::V, DecodeError>,
        >::empty() + seq![Ok::<T::V, DecodeError>(vs[0])] + rest.map_values(
            |v: T::V| Ok::<T::V, DecodeError>(v),
        ));
    }
}

/// Tag isolation over alternating traffic: a handle bound to `tag`, reading a
/// stream that alternates envelopes under another tag with values under its
/// own, takes exactly its own values, in order, with nothing dropped,
/// repeated or failed.
pub proof fn lemma_alternating_delivered<T: Payload>(
    tag: Seq<char>,
    other: Seq<char>,
    others: Seq<Seq<u8>>,
    vs: Seq<T::V>,
)
    requires
        other != tag,
        encode_utf8(tag).len() < 0x1_0000_0000_0000_0000,
        encode_utf8(other).len() < 0x1_0000_0000_0000_0000,
        others.len() == vs.len(),
        forall|k: int| 0 <= k < vs.len() ==> T::encodable(#[trigger] vs[k]),
    ensures
        deliveries::<T>(tag, alternating::<T>(tag, other, others, vs)) == vs.map_values(
            |v: T::V| Ok::<T::V, DecodeError>(v),
        ),
    decreases vs.len(),
{
    let s = alternating::<T>(tag, other, others, vs);
    if vs.len() == 0 {
        assert(s =~= Seq::<Seq<u8>>::empty());
        assert(vs.map_values(|v: T::V| Ok::<T::V, DecodeError>(v)) =~= Seq::empty());
    } else {
        let rest = vs.drop_first();
        assert forall|k: int| 0 <= k < rest.len() implies T::encodable(#[trigger] rest[k]) by {
            assert(rest[k] == vs[k + 1]);
        }
        let tail = alternating::<T>(tag, other, others.drop_first(), rest);
        lemma_alternating_delivered::<T>(tag, other, others.drop_first(), rest);
        let o = envelope_wire(other, others[0]);
        let p = envelope_wire(tag, T::wire_of(vs[0]));
        lemma_other_tag_skipped::<T>(tag, other, others[0], Seq::empty(), seq![p] + tail);
        assert(s =~= Seq::<Seq<u8>>::empty() + seq![o] + (seq![p] + tail));
        assert(Seq::<Seq<u8>>::empty() + (seq![p] + tail) =~= Seq::<Seq<u8>>::empty() + seq![p]
            + tail);
        assert(T::encodable(vs[0]));
        lemma_own_tag_delivered::<T>(tag, vs[0], Seq::empty(), tail);
        assert(deliveries::<T>(tag, Seq::empty()) =~= Seq::empty());
        assert(vs.map_values(|v: T::V| Ok::<T::V, DecodeError>(v)) =~= Seq::<
            Result<T::V, DecodeError>,
        >::empty() + seq![Ok::<T::V, DecodeError>(vs[0])] + rest.map_values(
            |v: T::V| Ok::<T::V, DecodeError>(v),
        ));
    }
}

} // verus!
