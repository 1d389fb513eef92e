//! Envelope wire format: length-prefixed fields in little-endian, a tagged
//! optional payload, laid out field after field.
use vstd::prelude::*;
use vstd::slice::slice_subrange;
use vstd::slice::slice_to_vec;
use vstd::utf8::decode_utf8;
use vstd::utf8::encode_utf8;
use vstd::string::StrSliceExecFns;
use vstd::utf8::decode_utf8_encode_utf8;
use vstd::utf8::encode_utf8_decode_utf8;
use vstd::utf8::encode_utf8_valid_utf8;
use vstd::utf8::valid_utf8;

verus! {

/// Why a byte sequence is not a well-formed value of the wire format.
#[derive(Debug, Clone, Copy, PartialEq, Eq, Structural)]
pub enum DecodeError {
    /// The bytes end before the value does.
    Truncated,
    /// A text field does not hold valid UTF-8.
    InvalidUtf8,
    /// The payload marker is absent: the envelope carries no payload.
    MissingPayload,
    /// The payload marker is neither 0 nor 1.
    InvalidTag,
    /// Bytes are left over after the value.
    TrailingBytes,
}

/// Number of bytes of a length prefix.
pub const PREFIX_LEN: usize = 8;

/// Little-endian value of a byte sequence.
pub open spec fn le_value(s: Seq<u8>) -> nat
    decreases s.len(),
{
    if s.len() == 0 {
        0
    } else {
        s[0] as nat + 256 * le_value(s.drop_first())
    }
}

/// The `k` low bytes of `n`, least significant first.
pub open spec fn le_bytes(n: nat, k: nat) -> Seq<u8>
    decreases k,
{
    if k == 0 {
        Seq::empty()
    } else {
        seq![(n % 256) as u8] + le_bytes(n / 256, (k - 1) as nat)
    }
}

pub open spec fn pow256(k: nat) -> nat
    decreases k,
{
    if k == 0 {
        1
    } else {
        256 * pow256((k - 1) as nat)
    }
}

/// The length prefix of a field of `n` bytes.
pub open spec fn len_prefix(n: nat) -> Seq<u8> {
    le_bytes(n, 8)
}

/// A byte field: its length, then its bytes.
pub open spec fn bytes_wire(b: Seq<u8>) -> Seq<u8> {
    len_prefix(b.len()) + b
}

/// A text field: the byte field of its UTF-8 encoding.
pub open spec fn str_wire(s: Seq<char>) -> Seq<u8> {
    bytes_wire(encode_utf8(s))
}

/// An envelope: the topic tag, the marker 1, then the payload.
pub open spec fn envelope_wire(tag: Seq<char>, payload: Seq<u8>) -> Seq<u8> {
    str_wire(tag) + seq![1u8] + payload
}

/// Reads a byte field at the start of `b`: the field and what follows it.
pub open spec fn parse_bytes(b: Seq<u8>) -> Result<(Seq<u8>, Seq<u8>), DecodeError> {
    if b.len() < 8 {
        Err(DecodeError::Truncated)
    } else {
        let n = le_value(b.subrange(0, 8)) as int;
        if n > b.len() - 8 {
            Err(DecodeError::Truncated)
        } else {
            Ok((b.subrange(8, 8 + n), b.subrange(8 + n, b.len() as int)))
        }
    }
}

/// Reads a text field at the start of `b`: the text and what follows it.
pub open spec fn parse_str(b: Seq<u8>) -> Result<(Seq<char>, Seq<u8>), DecodeError> {
    match parse_bytes(b) {
        Err(e) => Err(e),
        Ok((f, rest)) => if valid_utf8(f) {
            Ok((decode_utf8(f), rest))
        } else {
            Err(DecodeError::InvalidUtf8)
        },
    }
}

/// Reads an envelope: its topic tag and its raw payload.
pub open spec fn parse_envelope(b: Seq<u8>) -> Result<(Seq<char>, Seq<u8>), DecodeError> {
    match parse_str(b) {
        Err(e) => Err(e),
        Ok((tag, rest)) => if rest.len() == 0 {
            Err(DecodeError::Truncated)
        } else if rest[0] == 1 {
            Ok((tag, rest.drop_first()))
        } else if rest[0] == 0 {
            Err(DecodeError::MissingPayload)
        } else {
            Err(DecodeError::InvalidTag)
        },
    }
}

proof fn lemma_pow256_8()
    ensures
        pow256(8) == 0x1_0000_0000_0000_0000,
{
    reveal_with_fuel(pow256, 9);
}

proof fn lemma_le_round_trip(n: nat, k: nat)
    requires
        n < pow256(k),
    ensures
        le_value(le_bytes(n, k)) == n,
        le_bytes(n, k).len() == k,
    decreases k,
{
    if k > 0 {
        let k1 = (k - 1) as nat;
        assert(n / 256 < pow256(k1)) by (nonlinear_arith)
            requires
                n < 256 * pow256(k1),
        ;
        lemma_le_round_trip(n / 256, k1);
        assert(le_bytes(n, k).drop_first() =~= le_bytes(n / 256, k1));
    }
}

/// The prefix of a length that fits in 64 bits reads back as that length.
pub proof fn lemma_len_prefix(n: nat)
    requires
        n < 0x1_0000_0000_0000_0000,
    ensures
        len_prefix(n).len() == 8,
        le_value(len_prefix(n)) == n,
{
    lemma_pow256_8();
    lemma_le_round_trip(n, 8);
}

/// Reads the eight bytes at `pos` as a little-endian integer.
fn read_u64_le(b: &[u8], pos: usize) -> (r: u64)
    requires
        pos + 8 <= b@.len(),
    ensures
        r as nat == le_value(b@.subrange(pos as int, pos + 8)),
{
    let len = b.len();
    let mut v: u64 = 0;
    let mut k: usize = 8;
    proof {
        lemma_pow256_8();
    }
    while k > 0
        invariant
            pos + 8 <= b@.len(),
            b@.len() == len,
            k <= 8,
            pow256(8) == 0x1_0000_0000_0000_0000,
            v as nat == le_value(b@.subrange(pos + k, pos + 8)),
            (v as nat) < pow256((8 - k) as nat),
        decreases k,
    {
        proof {
            let s = b@.subrange(pos + k - 1, pos + 8);
            assert(s.drop_first() =~= b@.subrange(pos + k, pos + 8));
            assert(pow256((8 - k + 1) as nat) == 256 * pow256((8 - k) as nat));
            assert(pow256((8 - k) as nat) <= 0x100_0000_0000_0000) by {
                reveal_with_fuel(pow256, 9);
            }
        }
        v = v * 256 + b[pos + k - 1] as u64;
        k = k - 1;
    }
    v
}

/// Appends the eight little-endian bytes of `n`.
fn write_u64_le(out: &mut Vec<u8>, n: u64)
    ensures
        final(out)@ == old(out)@ + le_bytes(n as nat, 8),
{
    let ghost start = out@;
    let mut v: u64 = n;
    let mut i: usize = 0;
    while i < 8
        invariant
            i <= 8,
            out@ + le_bytes(v as nat, (8 - i) as nat) == start + le_bytes(n as nat, 8),
        decreases 8 - i,
    {
        proof {
            assert(le_bytes(v as nat, (8 - i) as nat) =~= seq![(v % 256) as u8] + le_bytes(
                (v / 256) as nat,
                (8 - i - 1) as nat,
            ));
            assert(out@.push((v % 256) as u8) + le_bytes((v / 256) as nat, (8 - i - 1) as nat)
                =~= out@ + le_bytes(v as nat, (8 - i) as nat));
        }
        out.push((v % 256) as u8);
        v = v / 256;
        i = i + 1;
    }
    assert(le_bytes(v as nat, 0) =~= Seq::<u8>::empty());
    assert(out@ =~= start + le_bytes(n as nat, 8));
}

/// Relies on `String::from_utf8`: it succeeds exactly on valid UTF-8, and the
/// text is then what the bytes encode.
#[verifier::external_body]
fn utf8_string(b: Vec<u8>) -> (r: Option<String>)
    ensures
        r is Some <==> valid_utf8(b@),
        r is Some ==> r->Some_0@ == decode_utf8(b@),
{
    String::from_utf8(b).ok()
}

/// Appends the bytes of `b`.
fn append_slice(out: &mut Vec<u8>, b: &[u8])
    ensures
        final(out)@ == old(out)@ + b@,
{
    let ghost start = out@;
    let mut i: usize = 0;
    while i < b.len()
        invariant
            i <= b@.len(),
            out@ == start + b@.subrange(0, i as int),
        decreases b@.len() - i,
    {
        out.push(b[i]);
        i = i + 1;
        assert(out@ =~= start + b@.subrange(0, i as int));
    }
    assert(b@.subrange(0, b@.len() as int) =~= b@);
}

/// Appends a byte field holding `b`.
pub fn write_bytes(out: &mut Vec<u8>, b: &[u8])
    ensures
        final(out)@ == old(out)@ + bytes_wire(b@),
        b@.len() <= usize::MAX,
{
    write_u64_le(out, b.len() as u64);
    append_slice(out, b);
    assert(old(out)@ + le_bytes(b@.len(), 8) + b@ =~= old(out)@ + bytes_wire(b@));
}

/// Appends a text field holding `s`.
pub fn write_str(out: &mut Vec<u8>, s: &str)
    ensures
        final(out)@ == old(out)@ + str_wire(s@),
        encode_utf8(s@).len() <= usize::MAX,
{
    let bytes = s.as_bytes_vec();
    write_bytes(out, bytes.as_slice());
}

/// Reads a byte field at the start of `b`; gives the field and the rest.
pub fn read_bytes(b: &[u8]) -> (r: Result<(&[u8], &[u8]), DecodeError>)
    ensures
        match r {
            Ok((f, rest)) => parse_bytes(b@) == Ok::<(Seq<u8>, Seq<u8>), DecodeError>((f@, rest@)),
            Err(e) => parse_bytes(b@) == Err::<(Seq<u8>, Seq<u8>), DecodeError>(e),
        },
{
    let len = b.len();
    if len < PREFIX_LEN {
        return Err(DecodeError::Truncated);
    }
    let n = read_u64_le(b, 0);
    if n > (len - PREFIX_LEN) as u64 {
        return Err(DecodeError::Truncated);
    }
    let end = PREFIX_LEN + n as usize;
    Ok((slice_subrange(b, PREFIX_LEN, end), slice_subrange(b, end, len)))
}

/// Reads a text field at the start of `b`; gives the text and the rest.
pub fn read_str(b: &[u8]) -> (r: Result<(String, &[u8]), DecodeError>)
    ensures
        match r {
            Ok((s, rest)) => parse_str(b@) == Ok::<(Seq<char>, Seq<u8>), DecodeError>((s@, rest@)),
            Err(e) => parse_str(b@) == Err::<(Seq<char>, Seq<u8>), DecodeError>(e),
        },
{
    match read_bytes(b) {
        Err(e) => Err(e),
        Ok((f, rest)) => match utf8_string(slice_to_vec(f)) {
            Some(s) => Ok((s, rest)),
            None => Err(DecodeError::InvalidUtf8),
        },
    }
}

/// Encodes an envelope holding `payload` under the topic tag `tag`.
pub fn encode_envelope(tag: &str, payload: &[u8]) -> (r: Vec<u8>)
    ensures
        r@ == envelope_wire(tag@, payload@),
{
    let mut out: Vec<u8> = Vec::new();
    write_str(&mut out, tag);
    out.push(1u8);
    append_slice(&mut out, payload);
    assert(out@ =~= envelope_wire(tag@, payload@));
    out
}

/// Decodes an envelope into its topic tag and its raw payload.
pub fn decode_envelope(b: &[u8]) -> (r: Result<(String, Vec<u8>), DecodeError>)
    ensures
        match r {
            Ok((tag, payload)) => parse_envelope(b@) == Ok::<(Seq<char>, Seq<u8>), DecodeError>(
                (tag@, payload@),
            ),
            Err(e) => parse_envelope(b@) == Err::<(Seq<char>, Seq<u8>), DecodeError>(e),
        },
{
    match read_str(b) {
        Err(e) => Err(e),
        Ok((tag, rest)) => {
            let n = rest.len();
            if n == 0 {
                Err(DecodeError::Truncated)
            } else if rest[0] == 1 {
                let payload = slice_to_vec(slice_subrange(rest, 1, n));
                assert(payload@ =~= rest@.drop_first());
                Ok((tag, payload))
            } else if rest[0] == 0 {
                Err(DecodeError::MissingPayload)
            } else {
                Err(DecodeError::InvalidTag)
            }
        },
    }
}

/// A byte field followed by anything reads back as the field and the rest.
pub proof fn lemma_bytes_round_trip(b: Seq<u8>, rest: Seq<u8>)
    requires
        b.len() < 0x1_0000_0000_0000_0000,
    ensures
        parse_bytes(bytes_wire(b) + rest) == Ok::<(Seq<u8>, Seq<u8>), DecodeError>((b, rest)),
{
    lemma_len_prefix(b.len());
    let w = bytes_wire(b) + rest;
    assert(w.subrange(0, 8) =~= len_prefix(b.len()));
    assert(w.subrange(8, 8 + b.len() as int) =~= b);
    assert(w.subrange(8 + b.len() as int, w.len() as int) =~= rest);
}

/// A text field followed by anything reads back as the text and the rest.
pub proof fn lemma_str_round_trip(s: Seq<char>, rest: Seq<u8>)
    requires
        encode_utf8(s).len() < 0x1_0000_0000_0000_0000,
    ensures
        parse_str(str_wire(s) + rest) == Ok::<(Seq<char>, Seq<u8>), DecodeError>((s, rest)),
{
    lemma_bytes_round_trip(encode_utf8(s), rest);
    encode_utf8_valid_utf8(s);
    encode_utf8_decode_utf8(s);
}

/// Decoding an encoded envelope gives back its tag and its payload, byte for byte.
pub proof fn lemma_envelope_round_trip(tag: Seq<char>, payload: Seq<u8>)
    requires
        encode_utf8(tag).len() < 0x1_0000_0000_0000_0000,
    ensures
        parse_envelope(envelope_wire(tag, payload)) == Ok::<(Seq<char>, Seq<u8>), DecodeError>(
            (tag, payload),
        ),
{
    let rest = seq![1u8] + payload;
    assert(envelope_wire(tag, payload) =~= str_wire(tag) + rest);
    lemma_str_round_trip(tag, rest);
    assert(rest.drop_first() =~= payload);
}

proof fn lemma_le_inverse(s: Seq<u8>)
    ensures
        le_bytes(le_value(s), s.len()) == s,
        le_value(s) < pow256(s.len()),
    decreases s.len(),
{
    if s.len() > 0 {
        let t = s.drop_first();
        lemma_le_inverse(t);
        let x = le_value(t);
        let b0 = s[0] as nat;
        assert((b0 + 256 * x) % 256 == b0 && (b0 + 256 * x) / 256 == x) by (nonlinear_arith)
            requires
                b0 < 256,
        ;
        assert(b0 + 256 * x < 256 * pow256(t.len())) by (nonlinear_arith)
            requires
                b0 < 256,
                x < pow256(t.len()),
        ;
        assert(le_bytes(le_value(s), s.len()) =~= seq![s[0]] + t);
        assert(seq![s[0]] + t =~= s);
    }
}

/// Bytes that read as a byte field are that field's encoding, then the rest.
pub proof fn lemma_bytes_parsed(b: Seq<u8>)
    requires
        parse_bytes(b) is Ok,
    ensures
        b == bytes_wire(parse_bytes(b)->Ok_0.0) + parse_bytes(b)->Ok_0.1,
{
    let (f, rest) = parse_bytes(b)->Ok_0;
    lemma_le_inverse(b.subrange(0, 8));
    assert(f.len() == le_value(b.subrange(0, 8)));
    assert(len_prefix(f.len()) == b.subrange(0, 8));
    assert(b =~= bytes_wire(f) + rest);
}

/// Bytes that read as a text field are that text's encoding, then the rest.
pub proof fn lemma_str_parsed(b: Seq<u8>)
    requires
        parse_str(b) is Ok,
    ensures
        b == str_wire(parse_str(b)->Ok_0.0) + parse_str(b)->Ok_0.1,
{
    let (f, rest) = parse_bytes(b)->Ok_0;
    lemma_bytes_parsed(b);
    decode_utf8_encode_utf8(f);
}

/// Bytes that read as an envelope are exactly the encoding of that envelope.
pub proof fn lemma_envelope_parsed(b: Seq<u8>)
    requires
        parse_envelope(b) is Ok,
    ensures
        b == envelope_wire(parse_envelope(b)->Ok_0.0, parse_envelope(b)->Ok_0.1),
{
    let (tag, rest) = parse_str(b)->Ok_0;
    lemma_str_parsed(b);
    assert(rest =~= seq![1u8] + rest.drop_first());
    assert(b =~= envelope_wire(tag, rest.drop_first()));
}

} // verus!
