//! Torrents, links, trackers and identities.
use bit_vec::BitVec;
use serde_bencode::value::Value;
use wasmtorrent::identity::generate_peer_id;
use wasmtorrent::swarm::{CandidateAction, CandidateEvent, Swarm, SwarmAction, SwarmEvent};
use wasmtorrent::text::{int_text, nat_text};
use wasmtorrent::torrent::{magnet_info_hash, PIECE_LEN, TRACKER_PORT};
use wasmtorrent::tracker::{parse_peers, PeerAddr};
use wasmtorrent::{BencodeInfo, BencodeTorrent, Torrent};

fn info(length: Option<i64>, private: Option<u8>) -> BencodeInfo {
    BencodeInfo {
        pieces: vec![],
        piece_len: 16,
        length,
        name: "a".to_string(),
        private,
    }
}

fn hash(digits: &str) -> [u8; 20] {
    let mut bytes = [0; 20];
    hex::decode_to_slice(digits, &mut bytes).unwrap();
    bytes
}

#[test]
fn test_build_tracker_url() {
    let to = Torrent {
        announce: Some("http://bttracker.debian.org:6969/announce".to_string()),
        info_hash: [
            216, 247, 57, 206, 195, 40, 149, 108, 204, 91, 191, 31, 134, 217, 253, 207, 219, 168,
            206, 182,
        ],
        metadata: Some(BencodeInfo {
            pieces: [
                [
                    49, 50, 51, 52, 53, 54, 55, 56, 57, 48, 97, 98, 99, 100, 101, 102, 103, 104,
                    105, 106,
                ],
                [
                    97, 98, 99, 100, 101, 102, 103, 104, 105, 106, 49, 50, 51, 52, 53, 54, 55, 56,
                    57, 48,
                ],
            ]
            .concat(),
            piece_len: 262144,
            length: Some(351272960),
            name: "debian-10.2.0-amd64-netinst.iso".to_string(),
            private: None,
        }),
        bitfield: BitVec::from_elem(2, false),
    };

    let peer_id = [
        1, 2, 3, 4, 5, 6, 7, 8, 9, 10, 11, 12, 13, 14, 15, 16, 17, 18, 19, 20,
    ];
    let port = 6881;

    let url = to.build_tracker_url(&peer_id, port);
    let expected = "http://bttracker.debian.org:6969/announce?compact=1&downloaded=0&info_hash=%D8%F79%CE%C3%28%95l%CC%5B%BF%1F%86%D9%FD%CF%DB%A8%CE%B6&left=351272960&peer_id=%01%02%03%04%05%06%07%08%09%0A%0B%0C%0D%0E%0F%10%11%12%13%14&port=6881&uploaded=0";
    assert_eq!(url, expected);
}

#[test]
fn test_request_peers() {
    let bytes = [
        &b"d8:intervali900e5:peers12:"[..],
        &[192, 0, 2, 123, 0x1A, 0xE1],
        &[127, 0, 0, 1, 0x1A, 0xE9],
        b"e",
    ]
    .concat();

    let peers = match serde_bencode::from_bytes::<Value>(&bytes).unwrap() {
        Value::Dict(entries) => match entries.get(&b"peers"[..]) {
            Some(Value::Bytes(peers)) => peers.clone(),
            other => panic!("{:?}", other),
        },
        other => panic!("{:?}", other),
    };

    let r = parse_peers(&peers)
        .iter()
        .map(|PeerAddr { ip, port }| format!("{}.{}.{}.{}:{}", ip[0], ip[1], ip[2], ip[3], port))
        .collect::<Vec<String>>();

    assert_eq!(r, ["192.0.2.123:6881", "127.0.0.1:6889"]);
    assert_eq!(parse_peers(&[]), []);
}

#[test]
fn torrent_file_gives_the_info_hash() {
    let torrent = Torrent::from_torrent_file(BencodeTorrent {
        info: info(None, Some(1)),
        announce: Some("http://tracker".to_string()),
    });
    assert_eq!(
        torrent.info_hash,
        hash("9ae8995407986b803c9f79451e1cab6db63bdfd7")
    );
    assert_eq!(torrent.announce.as_deref(), Some("http://tracker"));
    assert_eq!(torrent.metadata, Some(info(None, Some(1))));
    assert_eq!(torrent.bitfield.len(), 0);
}

#[test]
fn descriptions_are_written_in_bencode() {
    assert_eq!(
        info(Some(-3), None).to_bytes(),
        b"d6:lengthi-3e4:name1:a12:piece lengthi16e6:pieces0:e"
    );
    let mut named = info(Some(0), Some(255));
    named.name = "\u{e9}t\u{e9}".to_string();
    named.pieces = vec![0xff; 3];
    assert_eq!(
        named.to_bytes(),
        b"d6:lengthi0e4:name5:\xc3\xa9t\xc3\xa912:piece lengthi16e6:pieces3:\xff\xff\xff7:privatei255ee"
    );
}

#[test]
fn descriptions_parse_back() {
    let bytes = info(Some(1000), Some(1)).to_bytes();
    match serde_bencode::from_bytes::<Value>(&bytes).unwrap() {
        Value::Dict(entries) => {
            assert_eq!(entries.len(), 5);
            assert_eq!(entries[&b"length"[..]], Value::Int(1000));
            assert_eq!(entries[&b"name"[..]], Value::Bytes(b"a".to_vec()));
            assert_eq!(entries[&b"piece length"[..]], Value::Int(16));
            assert_eq!(entries[&b"pieces"[..]], Value::Bytes(vec![]));
            assert_eq!(entries[&b"private"[..]], Value::Int(1));
        }
        other => panic!("{:?}", other),
    }
}

#[test]
fn metadata_makes_the_same_torrent() {
    let file = Torrent::from_torrent_file(BencodeTorrent {
        info: info(Some(5), None),
        announce: None,
    });
    let metadata = info(Some(5), None).to_bytes();
    let torrent = Torrent::from_metadata(metadata, info(Some(5), None));
    assert_eq!(torrent.info_hash, file.info_hash);
    assert_eq!(torrent.metadata, file.metadata);
    assert_eq!(torrent.announce, None);
    assert_eq!(torrent.bitfield, file.bitfield);
    // what was received counts, not what it describes
    let other = Torrent::from_metadata(b"abc".to_vec(), info(Some(5), None));
    assert_eq!(
        other.info_hash,
        hash("a9993e364706816aba3e25717850c26c9cd0d89d")
    );
}

#[test]
fn files_are_cut_into_pieces() {
    let torrent = Torrent::from_file("test.txt".to_string(), vec![0u8; 1000]);
    let info = torrent.metadata.as_ref().unwrap();
    assert_eq!(
        info.pieces,
        hash("c577f7a37657053275f3e3ecc06ec22e6b909366")
    );
    assert_eq!(info.piece_len, 262144);
    assert_eq!(info.length, Some(1000));
    assert_eq!(info.name, "test.txt");
    assert_eq!(info.private, None);
    assert_eq!(torrent.announce, None);
    assert_eq!(torrent.bitfield, BitVec::from_elem(1, false));
    assert_eq!(
        torrent.info_hash,
        hash("db58b70feeb9a055462cbaa43ce06767995e071a")
    );

    let empty = Torrent::from_file("empty".to_string(), vec![]);
    assert_eq!(empty.metadata.as_ref().unwrap().pieces, []);
    assert_eq!(empty.bitfield.len(), 0);

    let whole = Torrent::from_file("whole".to_string(), vec![1; 2 * PIECE_LEN]);
    assert_eq!(whole.bitfield.len(), 2);
    let more = Torrent::from_file("more".to_string(), vec![1; 2 * PIECE_LEN + 1]);
    let pieces = &more.metadata.as_ref().unwrap().pieces;
    assert_eq!(more.bitfield.len(), 3);
    assert_eq!(pieces.len(), 60);
    assert_eq!(pieces[..20], pieces[20..40]);
    assert_ne!(pieces[20..40], pieces[40..]);
}

#[test]
fn magnet_links_lead_back() {
    let torrent = Torrent::from_file("test.txt".to_string(), vec![0u8; 1000]);
    let link = torrent.build_magnet_link();
    assert_eq!(
        link,
        "xt=urn:btih:db58b70feeb9a055462cbaa43ce06767995e071a"
    );
    for prefix in ["", "magnet:?", "http://localhost:8000/?page=1&", "xt=urn:b"] {
        let again = Torrent::from_magnet_link(&format!("{}{}", prefix, link));
        assert_eq!(again.info_hash, torrent.info_hash);
        assert_eq!(again.metadata, None);
        assert_eq!(again.announce, None);
        assert_eq!(again.bitfield.len(), 0);
    }
}

#[test]
fn magnet_links_take_either_case() {
    let link = "magnet:?xt=urn:btih:DB58B70FEEB9A055462CBAA43CE06767995E071a";
    assert_eq!(
        magnet_info_hash(link),
        Some(hash("db58b70feeb9a055462cbaa43ce06767995e071a"))
    );
}

#[test]
fn other_links_name_no_torrent() {
    let digits = "db58b70feeb9a055462cbaa43ce06767995e071a";
    for link in [
        "".to_string(),
        digits.to_string(),
        format!("xt=urn:sha1:{}", digits),
        format!("xt=urn:btih:{}&dn=test.txt", digits),
        format!("xt=urn:btih:{}", &digits[1..]),
        format!("xt=urn:btih:{}", digits.replace('5', "x")),
        format!("xt=urn:btih:xt=urn:btih:{}", digits),
    ] {
        assert_eq!(magnet_info_hash(&link), None, "{}", link);
    }
}

#[test]
fn info_hash_is_enough_for_a_torrent() {
    let torrent = Torrent::from_info_hash([3; 20]);
    assert_eq!(torrent.info_hash, [3; 20]);
    assert_eq!(torrent.metadata, None);
    assert_eq!(torrent.metadata_size(), None);
}

#[test]
fn advertised_size_is_that_of_the_description() {
    let mut torrent = Torrent::from_file("test.txt".to_string(), vec![0u8; 1000]);
    let metadata = torrent.metadata.as_ref().unwrap().to_bytes();
    assert_eq!(torrent.metadata_size(), Some(metadata.len() as u32));
    torrent.set_complete();
    assert_eq!(torrent.bitfield, BitVec::from_elem(1, true));
}

#[test]
fn peer_ids_are_letters_and_digits() {
    let peer_id = generate_peer_id();
    assert!(peer_id.iter().all(|byte| byte.is_ascii_alphanumeric()));
    assert_ne!(generate_peer_id(), generate_peer_id());
    // and so they stand in a tracker's address as they are
    let mut torrent = Torrent::from_file("f".to_string(), vec![1, 2]);
    torrent.announce = Some("http://tracker/a".to_string());
    let url = torrent.build_tracker_url(&peer_id, TRACKER_PORT);
    let id = String::from_utf8(peer_id.to_vec()).unwrap();
    assert!(url.starts_with("http://tracker/a?compact=1&downloaded=0&info_hash="));
    assert!(url.ends_with(&format!("&left=2&peer_id={}&port=8080&uploaded=0", id)));
}

#[test]
fn numbers_are_written_in_decimal() {
    assert_eq!(nat_text(0), "0");
    assert_eq!(nat_text(907), "907");
    assert_eq!(nat_text(u64::MAX), "18446744073709551615");
    assert_eq!(int_text(-1), "-1");
    assert_eq!(int_text(i64::MIN), "-9223372036854775808");
    assert_eq!(int_text(i64::MAX), "9223372036854775807");
}

#[test]
fn handshakes_follow_connections() {
    let torrent = Torrent::from_file("test.txt".to_string(), vec![0u8; 1000]);
    let size = torrent.metadata_size();
    assert!(size.is_some());
    assert_eq!(
        torrent.handshake_stream(CandidateEvent::Connected),
        CandidateAction::Greet(size)
    );
    assert_eq!(
        torrent.handshake_stream(CandidateEvent::Refused),
        CandidateAction::Skip
    );
    assert_eq!(
        torrent.handshake_stream(CandidateEvent::Shaken),
        CandidateAction::Yield
    );
    assert_eq!(
        torrent.handshake_stream(CandidateEvent::Failed),
        CandidateAction::Skip
    );
    assert_eq!(
        torrent.handshake_stream(CandidateEvent::Exhausted),
        CandidateAction::Stop
    );
    assert_eq!(
        Torrent::from_info_hash([0; 20]).handshake_stream(CandidateEvent::Connected),
        CandidateAction::Greet(None)
    );
}

#[test]
fn swarm_gives_every_peer_a_worker() {
    let mut swarm = Swarm::new(2);
    assert_eq!((swarm.peers, swarm.active), (2, 2));
    assert_eq!(swarm.step(SwarmEvent::WorkerEnded), SwarmAction::Continue);
    assert_eq!((swarm.peers, swarm.active), (2, 1));
    assert_eq!(swarm.step(SwarmEvent::PeerFound), SwarmAction::Start(2));
    assert_eq!((swarm.peers, swarm.active), (3, 2));
    assert_eq!(swarm.step(SwarmEvent::Finished), SwarmAction::Stop);
    assert_eq!((swarm.peers, swarm.active), (3, 0));
}
