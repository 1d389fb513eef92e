//! What a node's identity is made from: the secret that a seed gives, and the
//! peer id that ends a node address.
use vstd::prelude::*;
use vstd::slice::slice_subrange;
use vstd::string::StrSliceExecFns;
use vstd::string::StringSliceAdditionalSpecFns;

verus! {

/// The Keccak-256 digest of some bytes.
pub uninterp spec fn keccak256_of(b: Seq<u8>) -> Seq<u8>;

/// The bytes that a base58 text (bitcoin alphabet) decodes to, if it is one.
pub uninterp spec fn base58_decoded(b: Seq<u8>) -> Option<Seq<u8>>;

/// Relies on `sha3::Keccak256`: its digest depends on the input alone and is
/// 32 bytes long.
#[verifier::external_body]
fn keccak256(b: &[u8]) -> (r: Vec<u8>)
    ensures
        r@ == keccak256_of(b@),
        r@.len() == 32,
{
    <sha3::Keccak256 as sha3::Digest>::digest(b).to_vec()
}

/// Relies on `bs58::decode(..).into_vec()`: the decoded bytes, or an error for
/// a text that is not base58, depending on the input alone.
#[verifier::external_body]
fn base58_decode(b: &[u8]) -> (r: Option<Vec<u8>>)
    ensures
        match r {
            Some(v) => base58_decoded(b@) == Some(v@),
            None => base58_decoded(b@) is None,
        },
{
    bs58::decode(b).into_vec().ok()
}

/// The 32-byte secret of the key pair that a seed stands for: the digest of
/// the seed's UTF-8 bytes.
pub fn seed_secret(seed: &str) -> (r: Vec<u8>)
    ensures
        r@ == keccak256_of(seed.spec_bytes()),
        r@.len() == 32,
{
    let bytes = seed.as_bytes_vec();
    keccak256(bytes.as_slice())
}

/// The separator in front of the peer id in a node address.
pub open spec fn p2p_sep() -> Seq<u8> {
    seq![47u8, 112u8, 50u8, 112u8, 47u8]
}

/// Whether the separator starts at `i`.
pub open spec fn sep_at(s: Seq<u8>, i: int) -> bool {
    0 <= i && i + 5 <= s.len() && s.subrange(i, i + 5) == p2p_sep()
}

/// Where the last piece of `s` starts when it is cut at each separator,
/// searching from `i` onwards, with `start` where the current piece began.
/// Separators are found from the left and do not overlap.
pub open spec fn last_piece_from(s: Seq<u8>, i: int, start: int) -> int
    decreases s.len() - i,
{
    if i < 0 || i + 5 > s.len() {
        start
    } else if sep_at(s, i) {
        last_piece_from(s, i + 5, i + 5)
    } else {
        last_piece_from(s, i + 1, start)
    }
}

/// The last piece of `s` cut at each separator: all of `s` when it holds none.
pub open spec fn last_piece(s: Seq<u8>) -> Seq<u8> {
    s.subrange(last_piece_from(s, 0, 0), s.len() as int)
}

proof fn lemma_last_piece_bounds(s: Seq<u8>, i: int, start: int)
    requires
        0 <= start <= s.len(),
        0 <= i,
    ensures
        0 <= last_piece_from(s, i, start) <= s.len(),
    decreases s.len() - i,
{
    if i + 5 > s.len() {
    } else if sep_at(s, i) {
        lemma_last_piece_bounds(s, i + 5, i + 5);
    } else {
        lemma_last_piece_bounds(s, i + 1, start);
    }
}

/// The piece of a node address after its last separator.
pub fn last_piece_of(s: &[u8]) -> (r: &[u8])
    ensures
        r@ == last_piece(s@),
{
    let n = s.len();
    let mut i: usize = 0;
    let mut start: usize = 0;
    while n - i >= 5
        invariant
            n == s@.len(),
            start <= n,
            i <= n,
            last_piece_from(s@, i as int, start as int) == last_piece_from(s@, 0, 0),
        decreases n - i,
    {
        if s[i] == 47u8 && s[i + 1] == 112u8 && s[i + 2] == 50u8 && s[i + 3] == 112u8 && s[i + 4]
            == 47u8 {
            assert(s@.subrange(i as int, i + 5) =~= p2p_sep());
            i = i + 5;
            start = i;
        } else {
            assert(!sep_at(s@, i as int)) by {
                if sep_at(s@, i as int) {
                    assert(s@.subrange(i as int, i + 5)[0] == s@[i as int]);
                    assert(s@.subrange(i as int, i + 5)[1] == s@[i + 1]);
                    assert(s@.subrange(i as int, i + 5)[2] == s@[i + 2]);
                    assert(s@.subrange(i as int, i + 5)[3] == s@[i + 3]);
                    assert(s@.subrange(i as int, i + 5)[4] == s@[i + 4]);
                }
            }
            i = i + 1;
        }
    }
    proof {
        lemma_last_piece_bounds(s@, 0, 0);
    }
    slice_subrange(s, start, n)
}

/// The bytes of the peer id that ends a node address: the last piece of the
/// address, decoded from base58; `None` when that piece is not base58.
pub fn peer_id_bytes(addr: &str) -> (r: Option<Vec<u8>>)
    ensures
        match r {
            Some(v) => base58_decoded(last_piece(addr.spec_bytes())) == Some(v@),
            None => base58_decoded(last_piece(addr.spec_bytes())) is None,
        },
{
    let bytes = addr.as_bytes_vec();
    base58_decode(last_piece_of(bytes.as_slice()))
}

} // verus!
