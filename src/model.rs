//! The payload types carried over the bus: a ping, and an event that nests
//! another payload under its own tag.
use crate::codec::bytes_wire;
use crate::codec::parse_bytes;
use crate::codec::parse_str;
use crate::codec::read_bytes;
use crate::codec::read_str;
use crate::codec::str_wire;
use crate::codec::write_bytes;
use crate::codec::write_str;
use crate::codec::lemma_bytes_round_trip;
use crate::codec::lemma_str_round_trip;
use crate::codec::lemma_bytes_parsed;
use crate::codec::lemma_str_parsed;
use crate::codec::DecodeError;
use crate::pubsub::Payload;
use vstd::prelude::*;
use vstd::slice::slice_to_vec;
use vstd::string::StringExecFns;
use vstd::utf8::encode_utf8;

verus! {

/// The tag of ping payloads.
pub open spec fn ping_tag() -> Seq<char> {
    seq!['p', 'i', 'n', 'g']
}

/// The tag of event payloads.
pub open spec fn event_tag() -> Seq<char> {
    seq!['e', 'v', 'e', 'n', 't']
}

/// A ping: one byte of content.
#[derive(Debug, Clone, Copy, PartialEq, Eq, Structural)]
pub struct PingModel {
    pub rand: u8,
}

/// An event: a payload of some other type, under that type's tag.
#[derive(Debug, Clone)]
pub struct EventModel {
    pub topic: String,
    pub data: Vec<u8>,
}

impl View for PingModel {
    type V = u8;

    open spec fn view(&self) -> u8 {
        self.rand
    }
}

impl View for EventModel {
    type V = (Seq<char>, Seq<u8>);

    open spec fn view(&self) -> (Seq<char>, Seq<u8>) {
        (self.topic@, self.data@)
    }
}

impl PingModel {
    /// The tag under which pings travel.
    pub fn get_topic() -> (r: String)
        ensures
            r@ == ping_tag(),
    {
        proof {
            reveal_strlit("ping");
        }
        let r = String::from_str("ping");
        assert(r@ =~= ping_tag());
        r
    }

    /// Whether `topic` is the ping tag.
    pub fn is_topic(topic: &String) -> (r: bool)
        ensures
            r == (topic@ == ping_tag()),
    {
        *topic == Self::get_topic()
    }
}

impl EventModel {
    /// The tag under which events travel.
    pub fn get_topic() -> (r: String)
        ensures
            r@ == event_tag(),
    {
        proof {
            reveal_strlit("event");
        }
        let r = String::from_str("event");
        assert(r@ =~= event_tag());
        r
    }

    /// Whether `topic` is the event tag.
    pub fn is_topic(topic: &String) -> (r: bool)
        ensures
            r == (topic@ == event_tag()),
    {
        *topic == Self::get_topic()
    }
}

impl Payload for PingModel {
    open spec fn wire_of(v: u8) -> Seq<u8> {
        seq![v]
    }

    open spec fn parse_of(b: Seq<u8>) -> Result<u8, DecodeError> {
        if b.len() == 0 {
            Err(DecodeError::Truncated)
        } else if b.len() > 1 {
            Err(DecodeError::TrailingBytes)
        } else {
            Ok(b[0])
        }
    }

    open spec fn encodable(v: u8) -> bool {
        true
    }

    proof fn lemma_parse_wire(v: u8) {
    }

    proof fn lemma_parsed_wire(b: Seq<u8>) {
        assert(b =~= seq![b[0]]);
    }

    fn to_wire(&self) -> (r: Vec<u8>) {
        let mut r: Vec<u8> = Vec::new();
        r.push(self.rand);
        assert(r@ =~= seq![self.rand]);
        r
    }

    fn from_wire(b: &[u8]) -> (r: Result<Self, DecodeError>) {
        if b.len() == 0 {
            Err(DecodeError::Truncated)
        } else if b.len() > 1 {
            Err(DecodeError::TrailingBytes)
        } else {
            Ok(PingModel { rand: b[0] })
        }
    }
}

impl Payload for EventModel {
    open spec fn wire_of(v: (Seq<char>, Seq<u8>)) -> Seq<u8> {
        str_wire(v.0) + bytes_wire(v.1)
    }

    open spec fn parse_of(b: Seq<u8>) -> Result<(Seq<char>, Seq<u8>), DecodeError> {
        match parse_str(b) {
            Err(e) => Err(e),
            Ok((t, rest)) => match parse_bytes(rest) {
                Err(e) => Err(e),
                Ok((d, tail)) => if tail.len() == 0 {
                    Ok((t, d))
                } else {
                    Err(DecodeError::TrailingBytes)
                },
            },
        }
    }

    open spec fn encodable(v: (Seq<char>, Seq<u8>)) -> bool {
        &&& encode_utf8(v.0).len() < 0x1_0000_0000_0000_0000
        &&& v.1.len() < 0x1_0000_0000_0000_0000
    }

    proof fn lemma_parse_wire(v: (Seq<char>, Seq<u8>)) {
        lemma_str_round_trip(v.0, bytes_wire(v.1));
        lemma_bytes_round_trip(v.1, Seq::empty());
        assert(str_wire(v.0) + bytes_wire(v.1) =~= str_wire(v.0) + (bytes_wire(v.1) + Seq::<
            u8,
        >::empty()));
        assert(bytes_wire(v.1) + Seq::<u8>::empty() =~= bytes_wire(v.1));
    }

    proof fn lemma_parsed_wire(b: Seq<u8>) {
        let (t, rest) = parse_str(b)->Ok_0;
        lemma_str_parsed(b);
        lemma_bytes_parsed(rest);
        let (d, tail) = parse_bytes(rest)->Ok_0;
        assert(bytes_wire(d) + tail =~= bytes_wire(d));
        assert(b =~= str_wire(t) + bytes_wire(d));
    }

    fn to_wire(&self) -> (r: Vec<u8>) {
        let mut r: Vec<u8> = Vec::new();
        write_str(&mut r, self.topic.as_str());
        write_bytes(&mut r, self.data.as_slice());
        assert(r@ =~= str_wire(self.topic@) + bytes_wire(self.data@));
        r
    }

    fn from_wire(b: &[u8]) -> (r: Result<Self, DecodeError>) {
        match read_str(b) {
            Err(e) => Err(e),
            Ok((topic, rest)) => match read_bytes(rest) {
                Err(e) => Err(e),
                Ok((data, tail)) => if tail.len() == 0 {
                    Ok(EventModel { topic, data: slice_to_vec(data) })
                } else {
                    Err(DecodeError::TrailingBytes)
                },
            },
        }
    }
}

} // verus!
