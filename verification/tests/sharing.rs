//! Seeding, metadata, and a file on its way from one side to the other.
use bit_vec::BitVec;
use serde_bencode::value::Value;
use sha1::{Digest, Sha1};
use wasmtorrent::download::download_kinds;
use wasmtorrent::extension::{ExtHandshake, ExtMsg};
use wasmtorrent::handshake::{HandshakeAction, HandshakeEvent, Handshaking};
use wasmtorrent::metadata::{
    MetadataAction, MetadataDownload, MetadataError, MetadataEvent, METADATA_PIECE_LEN,
};
use wasmtorrent::opcode;
use wasmtorrent::reader::MessageReader;
use wasmtorrent::seed::{seeder_kinds, Seeder, SeederAction, SeederEvent, SeederStage};
use wasmtorrent::torrent::PIECE_LEN;
use wasmtorrent::worker::{Worker, WorkerAction, WorkerEvent};
use wasmtorrent::{BencodeInfo, BencodeTorrent, Download, Message, PeerState, Torrent};

fn dict_int(value: &Value, key: &str) -> Option<i64> {
    match value {
        Value::Dict(entries) => match entries.get(key.as_bytes()) {
            Some(Value::Int(n)) => Some(*n),
            None => None,
            other => panic!("{:?}", other),
        },
        other => panic!("{:?}", other),
    }
}

fn dict_bytes(value: &Value, key: &str) -> Vec<u8> {
    match value {
        Value::Dict(entries) => match entries.get(key.as_bytes()) {
            Some(Value::Bytes(bytes)) => bytes.clone(),
            other => panic!("{:?}", other),
        },
        other => panic!("{:?}", other),
    }
}

/// Decodes the head of a metadata message. Its data may follow.
fn decode_ext_msg(bytes: &[u8]) -> ExtMsg {
    // the head is a dictionary of integers, so it ends where "ee" first stands
    let end = bytes.windows(2).position(|pair| pair == b"ee").unwrap() + 2;
    let value: Value = serde_bencode::from_bytes(&bytes[..end]).unwrap();
    ExtMsg {
        msg_type: dict_int(&value, "msg_type").unwrap() as i32,
        piece: dict_int(&value, "piece").unwrap() as i32,
        total_size: dict_int(&value, "total_size").map(|n| n as i32),
    }
}

fn decode_ext_handshake(bytes: &[u8]) -> ExtHandshake {
    let value: Value = serde_bencode::from_bytes(bytes).unwrap();
    let extensions = match &value {
        Value::Dict(entries) => &entries[&b"m"[..]],
        other => panic!("{:?}", other),
    };
    ExtHandshake {
        ut_metadata: dict_int(extensions, "ut_metadata").map(|n| n as i32),
        metadata_size: dict_int(&value, "metadata_size").map(|n| n as u32),
    }
}

fn decode_info(bytes: &[u8]) -> BencodeInfo {
    let value: Value = serde_bencode::from_bytes(bytes).unwrap();
    BencodeInfo {
        pieces: dict_bytes(&value, "pieces"),
        piece_len: dict_int(&value, "piece length").unwrap(),
        length: dict_int(&value, "length"),
        name: String::from_utf8(dict_bytes(&value, "name")).unwrap(),
        private: dict_int(&value, "private").map(|n| n as u8),
    }
}

/// Takes one message of a kind that is listened for off a connection.
fn receive(wire: &mut Vec<u8>, listen: &[u8], state: &mut PeerState) -> Option<Message> {
    let mut reader = MessageReader::new();
    loop {
        let wanted = reader.wanted();
        if wire.len() < wanted {
            return None;
        }
        let bytes: Vec<u8> = wire.drain(..wanted).collect();
        if let Some(message) = reader.feed(&bytes, listen, state) {
            return Some(message);
        }
    }
}

/// Lets a seeder answer everything that waits in `inbox`.
fn serve(seeder: &mut Seeder, file: &[u8], inbox: &mut Vec<u8>, outbox: &mut Vec<u8>) {
    let mut state = PeerState::default();
    let mut event = SeederEvent::Ready;
    loop {
        assert!(seeder.expects(&event), "{:?}", event);
        event = match seeder.step(event) {
            SeederAction::Send(message) => {
                outbox.extend(message.serialize());
                SeederEvent::Ready
            }
            SeederAction::Listen => match receive(inbox, &seeder_kinds(), &mut state) {
                Some(message) => SeederEvent::Heard(message),
                None => {
                    // to listen again when more has come in
                    seeder.stage = SeederStage::Answering;
                    return;
                }
            },
            SeederAction::Decode(bytes) => SeederEvent::Decoded(decode_ext_msg(&bytes)),
            SeederAction::Read { begin, len } => {
                let begin = begin as usize;
                SeederEvent::Read(file[begin..begin + len as usize].to_vec())
            }
            SeederAction::Fail => panic!("request of the wrong length"),
        }
    }
}

/// Lets a seeder that listens hear one message, and returns its answer.
fn ask(seeder: &mut Seeder, file: &[u8], message: Message) -> Message {
    let mut event = SeederEvent::Heard(message);
    loop {
        assert!(seeder.expects(&event));
        event = match seeder.step(event) {
            SeederAction::Send(answer) => {
                assert!(matches!(
                    seeder.step(SeederEvent::Ready),
                    SeederAction::Listen
                ));
                return answer;
            }
            SeederAction::Decode(bytes) => SeederEvent::Decoded(decode_ext_msg(&bytes)),
            SeederAction::Read { begin, len } => {
                let begin = begin as usize;
                SeederEvent::Read(file[begin..begin + len as usize].to_vec())
            }
            other => panic!("{:?}", other),
        }
    }
}

/// A seeder that awaits requests, with what it said first.
fn listening(torrent: &Torrent) -> (Seeder, Message, Message) {
    let mut seeder = torrent.seed_pieces();
    let bitfield = match seeder.step(SeederEvent::Ready) {
        SeederAction::Send(message) => message,
        other => panic!("{:?}", other),
    };
    let unchoke = match seeder.step(SeederEvent::Ready) {
        SeederAction::Send(message) => message,
        other => panic!("{:?}", other),
    };
    assert!(matches!(
        seeder.step(SeederEvent::Ready),
        SeederAction::Listen
    ));
    (seeder, bitfield, unchoke)
}

fn request(index: u32, begin: u32, len: u32) -> Message {
    let payload = [index.to_be_bytes(), begin.to_be_bytes(), len.to_be_bytes()].concat();
    Message::new(opcode::REQUEST, Some(payload))
}

fn metadata_request(piece: i32) -> Message {
    let request = ExtMsg {
        msg_type: 0,
        piece,
        total_size: None,
    };
    let payload = [&[1][..], &request.to_bytes()].concat();
    Message::new(opcode::EXTENDED, Some(payload))
}

#[test]
fn seeder_opens_with_its_bit_field() {
    let mut torrent = Torrent::from_file("f".to_string(), vec![0; 9 * PIECE_LEN + 1]);
    let (_, bitfield, unchoke) = listening(&torrent);
    assert_eq!(bitfield, Message::new(opcode::BITFIELD, Some(vec![0, 0])));
    assert_eq!(unchoke, Message::new(opcode::UNCHOKE, None));
    torrent.set_complete();
    let (_, bitfield, _) = listening(&torrent);
    assert_eq!(
        bitfield,
        Message::new(opcode::BITFIELD, Some(vec![0xff, 0b1100_0000]))
    );
    // the peer notes the same pieces, and none beyond them
    let mut state = PeerState::default();
    state.note(&bitfield);
    let bits: Vec<bool> = state.bitfield.iter().collect();
    assert_eq!(bits[..10], [true; 10]);
    assert_eq!(bits[10..], [false; 6]);
}

#[test]
fn seeder_answers_requests_for_blocks() {
    let file: Vec<u8> = (0..PIECE_LEN + 50000).map(|i| (i % 253) as u8).collect();
    let torrent = Torrent::from_file("f".to_string(), file.clone());
    let (mut seeder, _, _) = listening(&torrent);
    let answer = ask(&mut seeder, &file, request(1, 16384, 16384));
    assert_eq!(answer.id, opcode::PIECE);
    assert_eq!(answer.payload[..8], [0, 0, 0, 1, 0, 0, 0x40, 0]);
    let begin = PIECE_LEN + 16384;
    assert_eq!(answer.payload[8..], file[begin..begin + 16384]);
    let answer = ask(&mut seeder, &file, request(0, 0, 0));
    assert_eq!(answer.payload, [0; 8]);
}

#[test]
fn seeder_fails_on_requests_of_the_wrong_length() {
    let torrent = Torrent::from_file("f".to_string(), vec![0; 10]);
    for len in [0, 11, 13] {
        let (mut seeder, _, _) = listening(&torrent);
        let event = SeederEvent::Heard(Message::new(opcode::REQUEST, Some(vec![0; len])));
        assert!(seeder.expects(&event));
        assert!(matches!(seeder.step(event), SeederAction::Fail));
    }
}

#[test]
fn seeder_does_not_expect_requests_beyond_its_reach() {
    let torrent = Torrent::from_file("f".to_string(), vec![0; 10]);
    let (seeder, _, _) = listening(&torrent);
    // 16384 pieces of 2^18 bytes make 2^32 bytes
    assert!(seeder.expects(&SeederEvent::Heard(request(16383, 262143, 1))));
    assert!(!seeder.expects(&SeederEvent::Heard(request(16383, 262144, 1))));
    assert!(!seeder.expects(&SeederEvent::Heard(request(16384, 0, 1))));
    assert!(!seeder.expects(&SeederEvent::Heard(Message::new(opcode::EXTENDED, None))));
}

#[test]
fn seeder_answers_requests_for_metadata() {
    let torrent = Torrent::from_file("n".repeat(20000), vec![0; 10]);
    let metadata = torrent.metadata.as_ref().unwrap().to_bytes();
    assert!(metadata.len() > METADATA_PIECE_LEN);
    let (mut seeder, _, _) = listening(&torrent);
    let answer = ask(&mut seeder, &[], metadata_request(1));
    assert_eq!(answer.id, opcode::EXTENDED);
    let head = format!(
        "\0d8:msg_typei1e5:piecei1e10:total_sizei{}ee",
        metadata.len()
    );
    assert!(answer.payload.starts_with(head.as_bytes()));
    assert_eq!(
        answer.payload[head.len()..],
        metadata[METADATA_PIECE_LEN..]
    );
    let answer = ask(&mut seeder, &[], metadata_request(0));
    assert!(answer.payload.ends_with(&metadata[..METADATA_PIECE_LEN]));
}

#[test]
fn seeder_does_not_expect_requests_for_other_metadata() {
    let torrent = Torrent::from_file("f".to_string(), vec![0; 10]);
    let (mut seeder, _, _) = listening(&torrent);
    seeder.step(SeederEvent::Heard(metadata_request(0)));
    for piece in [-1, 1, i32::MAX] {
        let event = SeederEvent::Decoded(ExtMsg {
            msg_type: 0,
            piece,
            total_size: None,
        });
        assert!(!seeder.expects(&event));
    }
}

#[test]
fn other_extension_messages_are_read_as_requests() {
    let torrent = Torrent::from_file("f".to_string(), vec![0; 10]);
    let (mut seeder, _, _) = listening(&torrent);
    seeder.step(SeederEvent::Heard(metadata_request(0)));
    let event = SeederEvent::Decoded(ExtMsg {
        msg_type: 2,
        piece: 0,
        total_size: None,
    });
    assert!(seeder.expects(&event));
    assert!(matches!(seeder.step(event), SeederAction::Fail));
}

fn peer(metadata_size: Option<u32>) -> PeerState {
    PeerState {
        metadata_size,
        message_id: 3,
        ..PeerState::default()
    }
}

/// A download of metadata that awaits its first answer.
fn awaiting(torrent: &Torrent, size: u32) -> MetadataDownload {
    let download = torrent.download_metadata(&peer(Some(size))).unwrap();
    let (download, action) = download.step(MetadataEvent::Ready);
    match action {
        MetadataAction::Send(message) => {
            assert_eq!(message.id, opcode::EXTENDED);
            assert_eq!(message.payload, b"\x03d8:msg_typei0e5:piecei0ee");
        }
        other => panic!("{:?}", other),
    }
    let (download, action) = download.step(MetadataEvent::Ready);
    assert!(matches!(action, MetadataAction::Listen));
    download
}

fn data_head(piece: i32) -> ExtMsg {
    ExtMsg {
        msg_type: 1,
        piece,
        total_size: Some(3),
    }
}

#[test]
fn metadata_needs_a_size() {
    let torrent = Torrent::from_info_hash([0; 20]);
    let error = torrent.download_metadata(&peer(None)).unwrap_err();
    assert_eq!(error, MetadataError::NoSize);
    assert_eq!(error.message(), "no metadata size set");
}

#[test]
fn metadata_is_compared_with_the_info_hash() {
    // the SHA-1 digest of "abc"
    let link = "xt=urn:btih:a9993e364706816aba3e25717850c26c9cd0d89d";
    let torrent = Torrent::from_magnet_link(link);
    for (data, complete) in [(b"abc", true), (b"abd", false)] {
        let download = awaiting(&torrent, 3);
        let payload = [&b"\0head"[..], data].concat();
        let heard = MetadataEvent::Heard(Message::new(opcode::EXTENDED, Some(payload)));
        let (download, action) = download.step(heard);
        match action {
            MetadataAction::Decode(bytes) => assert_eq!(bytes, [&b"head"[..], data].concat()),
            other => panic!("{:?}", other),
        }
        let decoded = MetadataEvent::Decoded(data_head(0));
        assert!(download.expects(&decoded));
        let (_, action) = download.step(decoded);
        match action {
            MetadataAction::Complete(metadata) => {
                assert!(complete);
                assert_eq!(metadata, data);
            }
            MetadataAction::Fail(error) => {
                assert!(!complete);
                assert_eq!(error, MetadataError::WrongHash);
                assert_eq!(error.message(), "invalid info hash");
            }
            other => panic!("{:?}", other),
        }
    }
}

#[test]
fn empty_metadata_has_the_digest_of_nothing() {
    let link = "xt=urn:btih:da39a3ee5e6b4b0d3255bfef95601890afd80709";
    let torrent = Torrent::from_magnet_link(link);
    let download = torrent.download_metadata(&peer(Some(0))).unwrap();
    match download.step(MetadataEvent::Ready).1 {
        MetadataAction::Complete(metadata) => assert_eq!(metadata, []),
        other => panic!("{:?}", other),
    }
}

#[test]
fn empty_answers_fail_the_download() {
    let download = awaiting(&Torrent::from_info_hash([0; 20]), 3);
    let heard = MetadataEvent::Heard(Message::new(opcode::EXTENDED, None));
    match download.step(heard).1 {
        MetadataAction::Fail(error) => {
            assert_eq!(error, MetadataError::EmptyAnswer);
            assert_eq!(error.message(), "Unable to split extension message");
        }
        other => panic!("{:?}", other),
    }
}

#[test]
fn answers_without_a_place_are_not_expected() {
    let download = awaiting(&Torrent::from_info_hash([0; 20]), 3);
    let heard = MetadataEvent::Heard(Message::new(opcode::EXTENDED, Some(vec![0, 1])));
    let (download, _) = download.step(heard);
    for piece in [-1, 0, 1] {
        assert!(!download.expects(&MetadataEvent::Decoded(data_head(piece))));
    }
    assert!(!download.expects(&MetadataEvent::Ready));
}

/// Drives one side of a handshake as far as its input goes.
fn shake(
    handshaking: &mut Handshaking,
    event: HandshakeEvent,
    state: &mut PeerState,
    inbox: &mut Vec<u8>,
    outbox: &mut Vec<u8>,
) -> Option<HandshakeAction> {
    let mut event = event;
    loop {
        assert!(handshaking.takes(&event));
        event = match handshaking.step(event) {
            HandshakeAction::SendBytes(bytes) => {
                outbox.extend(bytes);
                HandshakeEvent::Ready
            }
            HandshakeAction::Send(message) => {
                outbox.extend(message.serialize());
                HandshakeEvent::Ready
            }
            HandshakeAction::Read(count) if inbox.len() >= count => {
                HandshakeEvent::Read(inbox.drain(..count).collect())
            }
            HandshakeAction::Listen if !inbox.is_empty() => {
                HandshakeEvent::Heard(receive(inbox, &[opcode::EXTENDED], state).unwrap())
            }
            HandshakeAction::Decode(bytes) => {
                HandshakeEvent::Decoded(decode_ext_handshake(&bytes))
            }
            HandshakeAction::Accept(extensions) => {
                state.accept(extensions);
                return None;
            }
            waiting => return Some(waiting),
        }
    }
}

/// Goes on with a handshake that waits for input.
fn resume(
    handshaking: &mut Handshaking,
    waiting: HandshakeAction,
    state: &mut PeerState,
    inbox: &mut Vec<u8>,
    outbox: &mut Vec<u8>,
) -> Option<HandshakeAction> {
    let event = match waiting {
        HandshakeAction::Read(count) => HandshakeEvent::Read(inbox.drain(..count).collect()),
        HandshakeAction::Listen => {
            HandshakeEvent::Heard(receive(inbox, &[opcode::EXTENDED], state).unwrap())
        }
        other => panic!("{:?}", other),
    };
    shake(handshaking, event, state, inbox, outbox)
}

/// Shares a file between two sides, from the link to the last byte.
fn share(name: &str, upload: Vec<u8>) {
    share_torrent(Torrent::from_file(name.to_string(), upload.clone()), upload);
}

/// A torrent for a file that is cut into pieces of another length.
fn torrent_of(file: &[u8], piece_len: usize) -> Torrent {
    let pieces = file
        .chunks(piece_len)
        .flat_map(|piece| Sha1::digest(piece).to_vec())
        .collect();
    Torrent::from_torrent_file(BencodeTorrent {
        info: BencodeInfo {
            pieces,
            piece_len: piece_len as i64,
            length: Some(file.len() as i64),
            name: "cut".to_string(),
            private: Some(1),
        },
        announce: None,
    })
}

/// Shares a file between two sides, from the link to the last byte.
fn share_torrent(mut seeding: Torrent, upload: Vec<u8>) {
    seeding.set_complete();
    let mut torrent = Torrent::from_magnet_link(&seeding.build_magnet_link());

    // both sides greet
    let (mut to_seeder, mut to_leecher) = (vec![], vec![]);
    let (mut seeder_state, mut state) = (PeerState::default(), PeerState::default());
    let mut one = Torrent::handshake(torrent.info_hash, [1; 20], torrent.metadata_size());
    let mut two = Torrent::handshake(seeding.info_hash, [2; 20], seeding.metadata_size());
    let waiting_one = shake(
        &mut one,
        HandshakeEvent::Ready,
        &mut state,
        &mut to_leecher,
        &mut to_seeder,
    );
    let waiting_two = shake(
        &mut two,
        HandshakeEvent::Ready,
        &mut seeder_state,
        &mut to_seeder,
        &mut to_leecher,
    );
    let waiting_one = resume(
        &mut one,
        waiting_one.unwrap(),
        &mut state,
        &mut to_leecher,
        &mut to_seeder,
    );
    let done = resume(
        &mut two,
        waiting_two.unwrap(),
        &mut seeder_state,
        &mut to_seeder,
        &mut to_leecher,
    );
    let done_two = match done {
        Some(waiting) => resume(
            &mut two,
            waiting,
            &mut seeder_state,
            &mut to_seeder,
            &mut to_leecher,
        ),
        None => None,
    };
    assert!(done_two.is_none());
    let done_one = match waiting_one {
        Some(waiting) => resume(
            &mut one,
            waiting,
            &mut state,
            &mut to_leecher,
            &mut to_seeder,
        ),
        None => None,
    };
    assert!(done_one.is_none());
    assert_eq!(state.metadata_size, seeding.metadata_size());
    assert_eq!(state.message_id, 1);
    assert_eq!(seeder_state.metadata_size, None);

    // the metadata
    let mut seeder = seeding.seed_pieces();
    let mut download = torrent.download_metadata(&state).unwrap();
    let mut event = MetadataEvent::Ready;
    let metadata = loop {
        assert!(download.expects(&event));
        let (next, action) = download.step(event);
        download = next;
        event = match action {
            MetadataAction::Send(message) => {
                to_seeder.extend(message.serialize());
                serve(&mut seeder, &upload, &mut to_seeder, &mut to_leecher);
                MetadataEvent::Ready
            }
            MetadataAction::Listen => MetadataEvent::Heard(
                receive(&mut to_leecher, &[opcode::EXTENDED], &mut state).unwrap(),
            ),
            MetadataAction::Decode(bytes) => MetadataEvent::Decoded(decode_ext_msg(&bytes)),
            MetadataAction::Complete(metadata) => break metadata,
            MetadataAction::Fail(error) => panic!("{}", error.message()),
        };
    };
    let described = Torrent::from_metadata(metadata.clone(), decode_info(&metadata));
    assert_eq!(described.info_hash, torrent.info_hash);
    torrent.metadata = described.metadata;
    torrent.bitfield = described.bitfield;
    assert_eq!(torrent.metadata, seeding.metadata);

    // the pieces
    let mut output = vec![0u8; torrent.metadata.as_ref().unwrap().length.unwrap() as usize];
    let mut queue = torrent.try_enqueue_pieces(None).unwrap();
    let mut collector = torrent.download_pieces();
    let mut worker = Worker::new();
    let mut event = WorkerEvent::Ready;
    let mut complete = false;
    loop {
        assert!(worker.expects(&state, &event), "{:?}", event);
        let (next, action) = worker.step(&state, event);
        worker = next;
        event = match action {
            WorkerAction::Send(message) => {
                to_seeder.extend(message.serialize());
                WorkerEvent::Ready
            }
            WorkerAction::AwaitBitfield => WorkerEvent::Heard(
                receive(&mut to_leecher, &[opcode::BITFIELD], &mut state).unwrap(),
            ),
            WorkerAction::Listen => {
                serve(&mut seeder, &upload, &mut to_seeder, &mut to_leecher);
                let message = receive(&mut to_leecher, &download_kinds(), &mut state);
                WorkerEvent::Heard(message.unwrap())
            }
            WorkerAction::Take => WorkerEvent::Taken(queue.take()),
            WorkerAction::Deliver(piece) => {
                let download = Download::Result(piece);
                assert!(collector.takes(&queue, &download));
                let write = collector.take(&mut queue, download).unwrap();
                let begin = write.begin as usize;
                output[begin..begin + write.data.len()].copy_from_slice(&write.data);
                complete = write.done;
                WorkerEvent::Ready
            }
            WorkerAction::Finish => break,
            other => panic!("{:?}", other),
        };
    }
    assert!(complete);
    assert_eq!(output, upload);
}

#[test]
fn a_small_file_is_shared() {
    share("test.txt", vec![0u8; 1000]);
}

#[test]
fn a_file_of_several_pieces_is_shared() {
    let upload: Vec<u8> = (0..2 * PIECE_LEN + 70000)
        .map(|i| (i * i % 255) as u8)
        .collect();
    share(&"long name ".repeat(4000), upload);
}

#[test]
fn files_are_shared_in_pieces_of_any_length() {
    let upload: Vec<u8> = (0..100000).map(|i| (i % 249) as u8).collect();
    for piece_len in [1 << 14, 30000, 1 << 16, 1 << 20] {
        share_torrent(torrent_of(&upload, piece_len), upload.clone());
    }
    share_torrent(torrent_of(&[7], 1 << 14), vec![7]);
}

#[test]
fn the_whole_file_misses_none_of_its_pieces() {
    let file = vec![3; 100];
    for piece_len in [1, 7, 50, 100, 1000] {
        let queue = torrent_of(&file, piece_len).enqueue_pieces(Some(file.clone()));
        assert_eq!(queue.len(), 0);
    }
}

/// Answers a request from a file.
fn answer(message: &Message, file: &[u8], piece_len: usize) -> Message {
    assert_eq!(message.id, opcode::REQUEST);
    let number = |at: usize| {
        let bytes: [u8; 4] = message.payload[at..at + 4].try_into().unwrap();
        u32::from_be_bytes(bytes) as usize
    };
    let begin = number(0) * piece_len + number(4);
    let payload = [&message.payload[..8], &file[begin..begin + number(8)]].concat();
    Message::new(opcode::PIECE, Some(payload))
}

#[test]
fn broken_connections_leave_no_gap() {
    let file: Vec<u8> = (0..50).map(|i| i as u8).collect();
    let torrent = torrent_of(&file, 20);
    let mut queue = torrent.enqueue_pieces(None);
    let mut collector = torrent.download_pieces();
    let state = PeerState {
        bitfield: BitVec::from_elem(3, true),
        ..PeerState::default()
    };
    let mut output: Vec<u8> = vec![];
    let mut finished = false;
    // the first two workers lose their connections after their first request
    for patience in [1, 1, usize::MAX] {
        let mut worker = Worker::new();
        let mut event = WorkerEvent::Ready;
        let mut requests = 0;
        let mut asked = None;
        let mut sent = vec![];
        let interrupted = loop {
            let (next, action) = worker.step(&state, event);
            worker = next;
            event = match action {
                WorkerAction::Send(message) => {
                    sent.push(message.id);
                    if message.id == opcode::REQUEST {
                        requests += 1;
                        asked = Some(answer(&message, &file, 20));
                    }
                    WorkerEvent::Ready
                }
                WorkerAction::Listen if requests >= patience => break worker.interrupt(),
                WorkerAction::Listen => WorkerEvent::Heard(asked.take().unwrap()),
                WorkerAction::Take => WorkerEvent::Taken(queue.take()),
                WorkerAction::Deliver(piece) => {
                    let download = Download::Result(piece);
                    assert!(collector.takes(&queue, &download));
                    let write = collector.take(&mut queue, download).unwrap();
                    let end = write.begin as usize + write.data.len();
                    output.resize(output.len().max(end), 0);
                    output[write.begin as usize..end].copy_from_slice(&write.data);
                    finished = write.done;
                    WorkerEvent::Ready
                }
                WorkerAction::Finish => break None,
                other => panic!("{:?}", other),
            };
        };
        assert_eq!(
            sent[..3],
            [opcode::UNCHOKE, opcode::INTEREST, opcode::REQUEST]
        );
        if let Some(work) = interrupted {
            let download = Download::Work(work);
            assert!(collector.takes(&queue, &download));
            assert_eq!(collector.take(&mut queue, download), None);
            assert_eq!(queue.len(), 3);
        }
    }
    assert!(finished);
    assert_eq!(output, file);
}

#[test]
fn choked_downloads_wait_for_the_peer() {
    let torrent = Torrent::from_file("f".to_string(), vec![5; 20]);
    let mut queue = torrent.enqueue_pieces(None);
    let mut state = PeerState {
        bitfield: BitVec::from_elem(1, true),
        choked: true,
        ..PeerState::default()
    };
    let (worker, _) = Worker::new().step(&state, WorkerEvent::Ready);
    let (worker, _) = worker.step(&state, WorkerEvent::Ready);
    let (worker, _) = worker.step(&state, WorkerEvent::Ready);
    let (worker, action) = worker.step(&state, WorkerEvent::Taken(queue.take()));
    assert!(matches!(action, WorkerAction::Listen));
    let unchoke = Message::new(opcode::UNCHOKE, None);
    state.note(&unchoke);
    let (_, action) = worker.step(&state, WorkerEvent::Heard(unchoke));
    match action {
        WorkerAction::Send(message) => assert_eq!(message, request(0, 0, 20)),
        other => panic!("{:?}", other),
    }
}
