use topic_bridge::identity::{last_piece_of, peer_id_bytes, seed_secret};

const HELLO: [u8; 8] = [0x04, 0x30, 0x5e, 0x2b, 0x24, 0x73, 0xf0, 0x58];

#[test]
fn seed_secret_is_keccak256_of_seed() {
    let empty = seed_secret("");
    assert_eq!(empty.len(), 32);
    assert_eq!(&empty[..4], &[0xc5, 0xd2, 0x46, 0x01]);
    assert_eq!(&empty[28..], &[0x5d, 0x85, 0xa4, 0x70]);
    assert_ne!(seed_secret("a"), seed_secret("b"));
    assert_eq!(seed_secret("node-1"), seed_secret("node-1"));
}

#[test]
fn peer_id_from_address() {
    let addr = "/ip4/10.0.0.1/udp/4001/quic-v1/p2p/he11owor1d";
    assert_eq!(peer_id_bytes(addr), Some(HELLO.to_vec()));
    assert_eq!(peer_id_bytes("he11owor1d"), Some(HELLO.to_vec()));
    assert_eq!(peer_id_bytes("/p2p/he110"), None);
    assert_eq!(peer_id_bytes("/p2p/x/p2p/he11owor1d"), Some(HELLO.to_vec()));
}

#[test]
fn last_piece_matches_split() {
    for s in ["", "abc", "/p2p/", "a/p2p/b", "/p2p/p2p/x", "x/p2p/p2p/he", "/p2p//p2p/q", "/p2/p2p/z"] {
        let expect = s.split("/p2p/").last().unwrap();
        assert_eq!(last_piece_of(s.as_bytes()), expect.as_bytes(), "{s}");
    }
}
