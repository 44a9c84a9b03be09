//! Messages, frames, greetings and buffers on the wire.
use bit_vec::BitVec;
use wasmtorrent::extension::{ExtHandshake, ExtMsg};
use wasmtorrent::handshake::{
    Handshake, HandshakeAction, HandshakeError, HandshakeEvent, Handshaking,
};
use wasmtorrent::message::UnexpectedEof;
use wasmtorrent::opcode::{self, OpcodeName};
use wasmtorrent::reader::MessageReader;
use wasmtorrent::stream::ReadBuffer;
use wasmtorrent::{Message, PeerState, Torrent};

const INFO_HASH: [u8; 20] = [
    134, 212, 200, 0, 36, 164, 105, 190, 76, 80, 188, 90, 16, 44, 247, 23, 128, 49, 0, 116,
];
const PEER_ID: [u8; 20] = [
    1, 2, 3, 4, 5, 6, 7, 8, 9, 10, 11, 12, 13, 14, 15, 16, 17, 18, 19, 20,
];

#[test]
fn test_parse_message() {
    // Have Message
    let mut input: &[u8] = &[0, 0, 0, 5, 4, 1, 2, 3, 4];
    let msg = Message::read(&mut input).unwrap();
    assert_eq!(
        msg,
        Some(Message {
            id: opcode::HAVE,
            payload: [1, 2, 3, 4].to_vec(),
        })
    );

    // keep-alive Message
    let mut input: &[u8] = &[0, 0, 0, 0];
    let msg = Message::read(&mut input).unwrap();
    assert_eq!(msg, None);

    // Choke Message
    let mut input: &[u8] = &[0x00, 0x00, 0x00, 0x01, 0x01];
    let msg = Message::read(&mut input).unwrap().unwrap();

    assert_eq!(
        msg,
        Message {
            id: opcode::UNCHOKE,
            payload: vec![],
        }
    );
}

#[test]
fn test_handshake() {
    let handshake = Handshake {
        len: 19,
        protocol: b"BitTorrent protocol".to_owned(),
        reserved: [0, 0, 0, 0, 0, 0, 0, 0],
        info_hash: [
            134, 212, 200, 0, 36, 164, 105, 190, 76, 80, 188, 90, 16, 44, 247, 23, 128, 49, 0, 116,
        ],
        peer_id: [
            1, 2, 3, 4, 5, 6, 7, 8, 9, 10, 11, 12, 13, 14, 15, 16, 17, 18, 19, 20,
        ],
    };

    let encoded = handshake.serialize();

    assert_eq!(
        encoded,
        [
            19, 66, 105, 116, 84, 111, 114, 114, 101, 110, 116, 32, 112, 114, 111, 116, 111, 99,
            111, 108, 0, 0, 0, 0, 0, 0, 0, 0, 134, 212, 200, 0, 36, 164, 105, 190, 76, 80, 188, 90,
            16, 44, 247, 23, 128, 49, 0, 116, 1, 2, 3, 4, 5, 6, 7, 8, 9, 10, 11, 12, 13, 14, 15,
            16, 17, 18, 19, 20
        ]
    );
}

#[test]
fn incomplete_frames_are_left_alone() {
    for bytes in [&[][..], &[0, 0, 0][..], &[0, 0, 0, 2, 4][..]] {
        let mut input: &[u8] = bytes;
        assert_eq!(Message::read(&mut input), Err(UnexpectedEof));
        assert_eq!(input, bytes);
    }
}

#[test]
fn frames_read_back() {
    let first = Message::new(opcode::REQUEST, Some(vec![9; 300]));
    let second = Message::new(opcode::INTEREST, None);
    let mut bytes = first.serialize();
    assert_eq!(&bytes[..6], &[0, 0, 1, 45, 6, 9]);
    bytes.extend(second.serialize());
    bytes.push(7);
    let mut input: &[u8] = &bytes;
    assert_eq!(Message::read(&mut input), Ok(Some(first)));
    assert_eq!(input, &[0, 0, 0, 1, 2, 7]);
    assert_eq!(Message::read(&mut input), Ok(Some(second)));
    assert_eq!(input, &[7]);
}

#[test]
fn messages_describe_themselves() {
    let message = Message::new(opcode::HAVE, Some(vec![0; 4]));
    assert_eq!(
        message.describe(),
        "Message { id: \"HAVE\", payload: \"<payload with 4 bytes>\" }"
    );
}

#[test]
fn opcodes_have_names() {
    let names = [
        (opcode::CHOKE, "CHOKE"),
        (opcode::UNCHOKE, "UNCHOKE"),
        (opcode::INTEREST, "INTEREST"),
        (opcode::UNINTEREST, "UNINTEREST"),
        (opcode::HAVE, "HAVE"),
        (opcode::BITFIELD, "BITFIELD"),
        (opcode::REQUEST, "REQUEST"),
        (opcode::PIECE, "PIECE"),
        (opcode::CANCEL, "CANCEL"),
        (opcode::EXTENDED, "EXTENDED"),
    ];
    for (id, name) in names {
        assert!(opcode::is_opcode(id));
        assert_eq!(id.to_opcode_name(), name);
    }
    assert!(!opcode::is_opcode(9));
    assert!(!opcode::is_opcode(21));
}

/// Feeds a reader from `input` until a message comes out.
fn receive(input: &mut &[u8], listen: &[u8], state: &mut PeerState) -> Option<Message> {
    let mut reader = MessageReader::new();
    loop {
        let wanted = reader.wanted();
        if input.len() < wanted {
            return None;
        }
        let (bytes, rest) = input.split_at(wanted);
        *input = rest;
        if let Some(message) = reader.feed(bytes, listen, state) {
            return Some(message);
        }
    }
}

#[test]
fn reader_passes_over_what_is_not_listened_for() {
    let mut bytes = vec![0, 0, 0, 0];
    bytes.extend(Message::new(opcode::CHOKE, None).serialize());
    bytes.extend(Message::new(99, Some(vec![1])).serialize());
    bytes.extend(Message::new(opcode::BITFIELD, Some(vec![0b1010_0000])).serialize());
    bytes.extend([0, 0, 0, 0]);
    bytes.extend(Message::new(opcode::HAVE, Some(vec![0, 0, 0, 3])).serialize());
    bytes.extend(Message::new(opcode::UNCHOKE, None).serialize());
    let mut state = PeerState::default();
    assert!(!state.choked);
    let mut input: &[u8] = &bytes;
    let message = receive(&mut input, &[opcode::HAVE, opcode::PIECE], &mut state);
    assert_eq!(message, Some(Message::new(opcode::HAVE, Some(vec![0, 0, 0, 3]))));
    assert!(state.choked);
    assert_eq!(state.bitfield, BitVec::from_bytes(&[0b1010_0000]));
    assert_eq!(state.bitfield.len(), 8);
    assert!(state.bitfield[0] && !state.bitfield[1] && state.bitfield[2]);
    assert_eq!(receive(&mut input, &[opcode::HAVE], &mut state), None);
    assert!(!state.choked);
}

#[test]
fn own_greeting_offers_the_extension_protocol() {
    let greeting = Handshake::new(INFO_HASH, PEER_ID);
    assert_eq!(greeting.len, 19);
    assert_eq!(&greeting.protocol, b"BitTorrent protocol");
    assert_eq!(greeting.reserved, [0, 0, 0, 0, 0, 0x10, 0, 0]);
    assert_eq!(Handshake::deserialize(&greeting.serialize()), Some(greeting));
}

#[test]
fn greetings_need_sixty_eight_bytes() {
    let mut bytes = Handshake::new(INFO_HASH, PEER_ID).serialize();
    assert_eq!(bytes.len(), 68);
    assert_eq!(Handshake::deserialize(&bytes[..67]), None);
    bytes.push(1);
    let greeting = Handshake::deserialize(&bytes).unwrap();
    assert_eq!(greeting.info_hash, INFO_HASH);
    assert_eq!(greeting.peer_id, PEER_ID);
}

fn shake(metadata_size: Option<u32>) -> Handshaking {
    let mut handshaking = Torrent::handshake(INFO_HASH, PEER_ID, metadata_size);
    match handshaking.step(HandshakeEvent::Ready) {
        HandshakeAction::SendBytes(bytes) => {
            assert_eq!(bytes, Handshake::new(INFO_HASH, PEER_ID).serialize())
        }
        other => panic!("{:?}", other),
    }
    match handshaking.step(HandshakeEvent::Ready) {
        HandshakeAction::Read(count) => assert_eq!(count, 68),
        other => panic!("{:?}", other),
    }
    handshaking
}

/// A handshake that awaits the peer's extensions.
fn offered(metadata_size: Option<u32>) -> (Handshaking, Message) {
    let mut handshaking = shake(metadata_size);
    let event = HandshakeEvent::Read(Handshake::new(INFO_HASH, [7; 20]).serialize());
    assert!(handshaking.takes(&event));
    let offer = match handshaking.step(event) {
        HandshakeAction::Send(message) => message,
        other => panic!("{:?}", other),
    };
    assert!(matches!(
        handshaking.step(HandshakeEvent::Ready),
        HandshakeAction::Listen
    ));
    (handshaking, offer)
}

#[test]
fn handshake_goes_through() {
    let (mut handshaking, offer) = offered(Some(2000));
    assert_eq!(offer.id, opcode::EXTENDED);
    assert_eq!(
        offer.payload,
        b"\x00d1:md11:ut_metadatai1ee13:metadata_sizei2000ee"
    );
    let event = HandshakeEvent::Heard(Message::new(
        opcode::EXTENDED,
        Some(b"\x00d1:md11:ut_metadatai3eee".to_vec()),
    ));
    assert!(handshaking.takes(&event));
    match handshaking.step(event) {
        HandshakeAction::Decode(bytes) => assert_eq!(bytes, b"d1:md11:ut_metadatai3eee"),
        other => panic!("{:?}", other),
    }
    let extensions = ExtHandshake {
        ut_metadata: Some(259),
        metadata_size: Some(77),
    };
    assert!(handshaking.takes(&HandshakeEvent::Decoded(extensions)));
    match handshaking.step(HandshakeEvent::Decoded(extensions)) {
        HandshakeAction::Accept(accepted) => {
            let mut state = PeerState::default();
            state.accept(accepted);
            assert_eq!(state.metadata_size, Some(77));
            assert_eq!(state.message_id, 3);
        }
        other => panic!("{:?}", other),
    }
}

#[test]
fn offer_without_metadata_has_no_size() {
    let (_, offer) = offered(None);
    assert_eq!(offer.payload, b"\x00d1:md11:ut_metadatai1eee");
}

#[test]
fn greeting_of_another_torrent_is_not_taken() {
    let handshaking = shake(None);
    let event = HandshakeEvent::Read(Handshake::new([9; 20], PEER_ID).serialize());
    assert!(!handshaking.takes(&event));
    assert!(!handshaking.takes(&HandshakeEvent::Read(vec![0; 67])));
    assert!(!handshaking.takes(&HandshakeEvent::Ready));
}

#[test]
fn answer_with_another_id_fails_the_handshake() {
    let (mut handshaking, _) = offered(None);
    let empty = HandshakeEvent::Heard(Message::new(opcode::EXTENDED, None));
    assert!(!handshaking.takes(&empty));
    let event = HandshakeEvent::Heard(Message::new(opcode::EXTENDED, Some(vec![1, 2])));
    match handshaking.step(event) {
        HandshakeAction::Fail(error) => {
            assert_eq!(error, HandshakeError::WrongId);
            assert_eq!(error.message(), "wrong id");
        }
        other => panic!("{:?}", other),
    }
}

#[test]
fn extensions_without_metadata_are_not_taken() {
    let (mut handshaking, _) = offered(None);
    handshaking.step(HandshakeEvent::Heard(Message::new(
        opcode::EXTENDED,
        Some(b"\x00d1:mdee".to_vec()),
    )));
    let extensions = ExtHandshake {
        ut_metadata: None,
        metadata_size: None,
    };
    assert!(!handshaking.takes(&HandshakeEvent::Decoded(extensions)));
}

#[test]
fn extension_messages_are_written_in_bencode() {
    let request = ExtMsg {
        msg_type: 0,
        piece: 12,
        total_size: None,
    };
    assert_eq!(request.to_bytes(), b"d8:msg_typei0e5:piecei12ee");
    let data = ExtMsg {
        msg_type: 1,
        piece: -7,
        total_size: Some(34256),
    };
    assert_eq!(
        data.to_bytes(),
        b"d8:msg_typei1e5:piecei-7e10:total_sizei34256ee"
    );
}

#[test]
fn buffer_hands_out_whole_reads() {
    let mut buffer = ReadBuffer::default();
    assert_eq!(buffer.take(1), None);
    buffer.put(vec![1, 2, 3]);
    assert_eq!(buffer.take(4), None);
    buffer.put(vec![4, 5]);
    assert_eq!(buffer.take(4), Some(vec![1, 2, 3, 4]));
    assert_eq!(buffer.take(0), Some(vec![]));
    assert_eq!(buffer.take(2), None);
    assert_eq!(buffer.take(1), Some(vec![5]));
    assert!(buffer.buf.is_empty());
}
