//! Downloading pieces: requests, workers, the queue and the collector.
use bit_vec::BitVec;
use wasmtorrent::collector::{Collector, PieceWrite};
use wasmtorrent::download::{
    download_kinds, DownloadStep, PieceDownload, PieceError, MAX_BACKLOG, MAX_BLOCKSIZE, MAX_PIECE,
};
use wasmtorrent::opcode;
use wasmtorrent::torrent::PIECE_LEN;
use wasmtorrent::work::PieceQueue;
use wasmtorrent::worker::{Worker, WorkerAction, WorkerEvent};
use wasmtorrent::{Download, Message, PeerState, PieceResult, PieceWork, Torrent};

/// The SHA-1 digest of "abc".
const ABC: [u8; 20] = [
    0xa9, 0x99, 0x3e, 0x36, 0x47, 0x06, 0x81, 0x6a, 0xba, 0x3e, 0x25, 0x71, 0x78, 0x50, 0xc2, 0x6c,
    0x9c, 0xd0, 0xd8, 0x9d,
];

fn work(index: usize, len: u32) -> PieceWork {
    PieceWork {
        index,
        hash: [0; 20],
        len,
    }
}

fn block(index: u32, begin: u32, data: &[u8]) -> Message {
    let payload = [&index.to_be_bytes()[..], &begin.to_be_bytes(), data].concat();
    Message::new(opcode::PIECE, Some(payload))
}

fn request(index: u32, begin: u32, len: u32) -> Vec<u8> {
    [index.to_be_bytes(), begin.to_be_bytes(), len.to_be_bytes()].concat()
}

#[test]
fn requests_cover_the_piece() {
    let len = 3 * MAX_BLOCKSIZE + 10;
    let mut download = PieceDownload::new(&work(7, len));
    assert_eq!(download.buf, vec![0; len as usize]);
    for (begin, block_len) in [(0, 16384), (16384, 16384), (32768, 16384), (49152, 10)] {
        match download.next(false) {
            DownloadStep::Request(message) => {
                assert_eq!(message.id, opcode::REQUEST);
                assert_eq!(message.payload, request(7, begin, block_len));
            }
            other => panic!("{:?}", other),
        }
    }
    assert!(matches!(download.next(false), DownloadStep::Listen));
    assert_eq!(download.requested, len);
    assert_eq!(download.backlog, 4);
}

#[test]
fn requests_wait_for_answers() {
    let mut download = PieceDownload::new(&work(0, 10 * MAX_BLOCKSIZE));
    for _ in 0..MAX_BACKLOG {
        assert!(matches!(download.next(false), DownloadStep::Request(_)));
    }
    assert!(matches!(download.next(false), DownloadStep::Listen));
    download.take(&block(0, 0, &[1; 16384])).unwrap();
    assert_eq!(download.downloaded, 16384);
    assert!(matches!(download.next(true), DownloadStep::Listen));
    assert!(matches!(download.next(false), DownloadStep::Request(_)));
    assert!(matches!(download.next(false), DownloadStep::Listen));
}

#[test]
fn nothing_is_asked_of_a_peer_that_chokes() {
    let mut download = PieceDownload::new(&work(0, 10));
    assert!(matches!(download.next(true), DownloadStep::Listen));
    assert_eq!(download.requested, 0);
    let unchoke = Message::new(opcode::UNCHOKE, None);
    assert!(download.can_take(&unchoke));
    assert_eq!(download.take(&unchoke), Ok(()));
    assert!(matches!(download.next(false), DownloadStep::Request(_)));
}

#[test]
fn empty_pieces_are_done_at_once() {
    assert!(matches!(
        PieceDownload::new(&work(0, 0)).next(false),
        DownloadStep::Done
    ));
}

#[test]
fn blocks_come_in_any_order() {
    let data: Vec<u8> = (0..40000u32).map(|i| (i % 251) as u8).collect();
    let mut download = PieceDownload::new(&work(2, 40000));
    while let DownloadStep::Request(_) = download.next(false) {}
    for begin in [32768usize, 0, 16384] {
        assert!(matches!(download.next(false), DownloadStep::Listen));
        let end = (begin + 16384).min(data.len());
        let message = block(2, begin as u32, &data[begin..end]);
        assert!(download.can_take(&message));
        assert_eq!(download.take(&message), Ok(()));
    }
    assert!(matches!(download.next(false), DownloadStep::Done));
    assert_eq!(download.buf, data);
    assert_eq!(download.backlog, 0);
}

#[test]
fn blocks_that_do_not_fit_are_refused() {
    let mut download = PieceDownload::new(&work(2, 10));
    let refusals = [
        (
            block(3, 0, &[1]),
            PieceError::WrongIndex {
                index: 3,
                expected: 2,
            },
            "Expected index 3, got 2",
        ),
        (
            block(2, 11, &[]),
            PieceError::BeginTooHigh,
            "Begin offset to high",
        ),
        (
            block(2, 8, &[1, 2, 3]),
            PieceError::DataTooLong {
                data_len: 3,
                begin: 8,
                len: 10,
            },
            "Data to long (3) for offset 8 with len 10",
        ),
    ];
    for (message, error, text) in refusals {
        assert!(download.can_take(&message));
        assert_eq!(download.take(&message), Err(error));
        assert_eq!(error.message(), text);
        assert_eq!(download.buf, [0; 10]);
        assert_eq!(download.downloaded, 0);
    }
    // a block may end where the piece ends
    assert_eq!(download.take(&block(2, 10, &[])), Ok(()));
    assert_eq!(download.take(&block(2, 7, &[1, 2, 3])), Ok(()));
    assert_eq!(download.buf, [0, 0, 0, 0, 0, 0, 0, 1, 2, 3]);
    assert_eq!(download.backlog, -2);
}

#[test]
fn blocks_without_a_place_are_not_taken() {
    let download = PieceDownload::new(&work(2, 10));
    for len in 0..4 {
        assert!(!download.can_take(&Message::new(opcode::PIECE, Some(vec![0; len]))));
    }
    let mut message = block(2, 0, &[]);
    message.payload.truncate(7);
    assert!(!download.can_take(&message));
    // with another index the place does not matter
    let mut message = block(3, 0, &[]);
    message.payload.truncate(7);
    assert!(download.can_take(&message));
}

fn peer(bits: &[u8]) -> PeerState {
    PeerState {
        bitfield: BitVec::from_bytes(bits),
        ..PeerState::default()
    }
}

/// Steps a worker, which must expect the event.
fn step(worker: Worker, state: &PeerState, event: WorkerEvent) -> (Worker, WorkerAction) {
    assert!(worker.expects(state, &event), "{:?}", event);
    worker.step(state, event)
}

/// A worker that has introduced itself and takes a piece.
fn choosing(state: &PeerState) -> Worker {
    let (worker, action) = step(Worker::new(), state, WorkerEvent::Ready);
    match action {
        WorkerAction::Send(message) => {
            assert_eq!(message, Message::new(opcode::UNCHOKE, None))
        }
        other => panic!("{:?}", other),
    }
    let (worker, action) = step(worker, state, WorkerEvent::Ready);
    match action {
        WorkerAction::Send(message) => {
            assert_eq!(message, Message::new(opcode::INTEREST, None))
        }
        other => panic!("{:?}", other),
    }
    let (worker, action) = step(worker, state, WorkerEvent::Ready);
    assert!(matches!(action, WorkerAction::Take));
    worker
}

fn abc() -> PieceWork {
    PieceWork {
        index: 1,
        hash: ABC,
        len: 3,
    }
}

/// A worker that has asked for a piece.
fn fetching(state: &PeerState, work: PieceWork) -> Worker {
    let (worker, action) = step(choosing(state), state, WorkerEvent::Taken(Some(work)));
    match action {
        WorkerAction::Send(message) => {
            assert_eq!(message.id, opcode::REQUEST);
            assert_eq!(message.payload, request(1, 0, 3));
        }
        other => panic!("{:?}", other),
    }
    let (worker, action) = step(worker, state, WorkerEvent::Ready);
    assert!(matches!(action, WorkerAction::Listen));
    worker
}

#[test]
fn worker_delivers_a_piece() {
    let state = peer(&[0b0100_0000]);
    let worker = fetching(&state, abc());
    let (worker, action) = step(
        worker,
        &state,
        WorkerEvent::Heard(Message::new(opcode::HAVE, Some(vec![0, 0, 0, 9]))),
    );
    assert!(matches!(action, WorkerAction::Listen));
    let (worker, action) = step(worker, &state, WorkerEvent::Heard(block(1, 0, b"abc")));
    match action {
        WorkerAction::Send(message) => {
            assert_eq!(message, Message::new(opcode::HAVE, Some(vec![0, 0, 0, 1])))
        }
        other => panic!("{:?}", other),
    }
    let (worker, action) = step(worker, &state, WorkerEvent::Ready);
    match action {
        WorkerAction::Deliver(piece) => assert_eq!(
            piece,
            PieceResult {
                index: 1,
                buf: b"abc".to_vec()
            }
        ),
        other => panic!("{:?}", other),
    }
    let (worker, action) = step(worker, &state, WorkerEvent::Ready);
    assert!(matches!(action, WorkerAction::Take));
    let (worker, action) = step(worker, &state, WorkerEvent::Taken(None));
    assert!(matches!(action, WorkerAction::Finish));
    assert!(!worker.expects(&state, &WorkerEvent::Ready));
}

#[test]
fn worker_awaits_the_bit_field() {
    let (worker, action) = step(Worker::new(), &PeerState::default(), WorkerEvent::Ready);
    assert!(matches!(action, WorkerAction::AwaitBitfield));
    assert!(!worker.expects(&PeerState::default(), &WorkerEvent::Ready));
    let state = peer(&[0xff]);
    let heard = WorkerEvent::Heard(Message::new(opcode::BITFIELD, Some(vec![0xff])));
    let (_, action) = step(worker, &state, heard);
    match action {
        WorkerAction::Send(message) => {
            assert_eq!(message, Message::new(opcode::UNCHOKE, None))
        }
        other => panic!("{:?}", other),
    }
}

#[test]
fn worker_hands_back_what_the_peer_lacks() {
    let state = peer(&[0b1000_0000]);
    let (worker, action) = step(
        choosing(&state),
        &state,
        WorkerEvent::Taken(Some(abc())),
    );
    match action {
        WorkerAction::HandBack(work) => assert_eq!(work, abc()),
        other => panic!("{:?}", other),
    }
    let (_, action) = step(worker, &state, WorkerEvent::Ready);
    assert!(matches!(action, WorkerAction::Take));
}

#[test]
fn worker_does_not_expect_pieces_beyond_the_bit_field() {
    let state = peer(&[0xff]);
    let worker = choosing(&state);
    assert!(worker.expects(&state, &WorkerEvent::Taken(Some(work(7, MAX_PIECE)))));
    assert!(!worker.expects(&state, &WorkerEvent::Taken(Some(work(7, MAX_PIECE + 1)))));
    assert!(!worker.expects(&state, &WorkerEvent::Taken(Some(work(8, 1)))));
}

#[test]
fn worker_hands_back_after_an_error() {
    let state = peer(&[0xff]);
    let worker = fetching(&state, abc());
    let (worker, action) = step(worker, &state, WorkerEvent::Heard(block(5, 0, b"abc")));
    match action {
        WorkerAction::HandBack(work) => assert_eq!(work, abc()),
        other => panic!("{:?}", other),
    }
    let (_, action) = step(worker, &state, WorkerEvent::Ready);
    match action {
        WorkerAction::Fail(error) => assert_eq!(error.message(), "Expected index 5, got 1"),
        other => panic!("{:?}", other),
    }
}

#[test]
fn worker_rejects_wrong_contents() {
    let state = peer(&[0xff]);
    let worker = fetching(&state, abc());
    let (worker, action) = step(worker, &state, WorkerEvent::Heard(block(1, 0, b"abd")));
    match action {
        WorkerAction::HandBack(work) => assert_eq!(work, abc()),
        other => panic!("{:?}", other),
    }
    let (_, action) = step(worker, &state, WorkerEvent::Ready);
    assert!(matches!(action, WorkerAction::Reject));
}

#[test]
fn interrupted_worker_gives_its_piece_back() {
    let state = peer(&[0xff]);
    assert_eq!(fetching(&state, abc()).interrupt(), Some(abc()));
    assert_eq!(choosing(&state).interrupt(), None);
    let worker = fetching(&state, abc());
    let (announcing, _) = step(worker, &state, WorkerEvent::Heard(block(1, 0, b"abc")));
    assert_eq!(announcing.interrupt(), None);
}

#[test]
fn worker_listens_for_what_bears_on_the_download() {
    assert_eq!(
        download_kinds(),
        [opcode::PIECE, opcode::CHOKE, opcode::UNCHOKE, opcode::HAVE]
    );
}

#[test]
fn queue_is_first_in_first_out() {
    let mut queue = PieceQueue::new(2);
    assert_eq!(queue.capacity(), 2);
    assert_eq!(queue.take(), None);
    queue.put(work(4, 1));
    queue.put(work(5, 2));
    assert_eq!(queue.len(), 2);
    assert_eq!(queue.take(), Some(work(4, 1)));
    queue.put(work(6, 3));
    assert_eq!(queue.take(), Some(work(5, 2)));
    assert_eq!(queue.take(), Some(work(6, 3)));
    assert_eq!(queue.take(), None);
    assert_eq!(queue.capacity(), 2);
    assert_eq!(PieceQueue::new(0).take(), None);
}

fn sample() -> (Torrent, Vec<u8>) {
    let mut file = vec![1; PIECE_LEN];
    file.extend(vec![2; PIECE_LEN]);
    file.extend(vec![3; 100]);
    (Torrent::from_file("f".to_string(), file.clone()), file)
}

fn drain(mut queue: PieceQueue) -> Vec<PieceWork> {
    let mut works = vec![];
    while let Some(work) = queue.take() {
        works.push(work);
    }
    works
}

#[test]
fn without_a_file_all_pieces_are_queued() {
    let (torrent, _) = sample();
    let queue = torrent.try_enqueue_pieces(None).unwrap();
    assert_eq!(queue.capacity(), 3);
    let pieces = &torrent.metadata.as_ref().unwrap().pieces;
    let works = drain(queue);
    assert_eq!(works.len(), 3);
    for (i, work) in works.iter().enumerate() {
        assert_eq!(work.index, i);
        assert_eq!(work.hash, pieces[20 * i..20 * i + 20]);
        assert_eq!(work.len, if i < 2 { 262144 } else { 100 });
    }
    assert_eq!(drain(torrent.enqueue_pieces(None)), works);
}

#[test]
fn with_the_whole_file_none_is_queued() {
    let (torrent, file) = sample();
    let queue = torrent.try_enqueue_pieces(Some(file)).unwrap();
    assert_eq!(queue.len(), 0);
    assert_eq!(queue.capacity(), 3);
}

#[test]
fn missing_and_damaged_pieces_are_queued() {
    let (torrent, mut file) = sample();
    file[PIECE_LEN] = 9;
    let indices = |file: Vec<u8>| -> Vec<usize> {
        let queue = torrent.try_enqueue_pieces(Some(file)).unwrap();
        drain(queue).iter().map(|work| work.index).collect()
    };
    assert_eq!(indices(file.clone()), [1]);
    file.truncate(2 * PIECE_LEN + 99);
    assert_eq!(indices(file.clone()), [1, 2]);
    file.truncate(PIECE_LEN);
    assert_eq!(indices(file.clone()), [1, 2]);
    assert_eq!(indices(vec![]), [0, 1, 2]);
}

#[test]
fn pieces_that_have_no_extent_cannot_be_queued() {
    assert!(Torrent::from_info_hash([0; 20])
        .try_enqueue_pieces(None)
        .is_none());
    let (mut torrent, file) = sample();
    torrent.metadata.as_mut().unwrap().length = None;
    assert!(torrent.try_enqueue_pieces(None).is_none());
    // the length is needed only for pieces that are missing
    assert_eq!(torrent.try_enqueue_pieces(Some(file)).unwrap().len(), 0);
    let (mut torrent, file) = sample();
    torrent.metadata.as_mut().unwrap().piece_len = i64::MAX;
    assert!(torrent.try_enqueue_pieces(None).is_none());
    torrent.metadata.as_mut().unwrap().piece_len = 0;
    assert!(torrent.try_enqueue_pieces(Some(file)).is_none());
    assert!(drain(torrent.try_enqueue_pieces(None).unwrap())
        .iter()
        .all(|work| work.len == 0));
}

#[test]
fn collector_places_pieces() {
    let (torrent, _) = sample();
    let mut queue = torrent.enqueue_pieces(None);
    let mut collector = torrent.download_pieces();
    let mut done = vec![];
    for index in [2usize, 0, 1] {
        let download = Download::Result(PieceResult {
            index,
            buf: vec![index as u8],
        });
        assert!(collector.takes(&queue, &download));
        let PieceWrite {
            begin,
            data,
            done: last,
        } = collector.take(&mut queue, download).unwrap();
        assert_eq!(begin, 262144 * index as u64);
        assert_eq!(data, [index as u8]);
        done.push(last);
    }
    assert_eq!(done, [false, false, true]);
    assert_eq!(collector.downloaded, 3);
}

#[test]
fn collector_queues_what_is_handed_back() {
    let (torrent, _) = sample();
    let mut queue = torrent.enqueue_pieces(None);
    let mut collector = torrent.download_pieces();
    assert!(!collector.takes(&queue, &Download::Work(work(0, 1))));
    let first = queue.take().unwrap();
    let download = Download::Work(first);
    assert!(collector.takes(&queue, &download));
    assert_eq!(collector.take(&mut queue, download), None);
    let order: Vec<usize> = drain(queue).iter().map(|work| work.index).collect();
    assert_eq!(order, [1, 2, 0]);
    assert_eq!(collector.downloaded, 0);
}

#[test]
fn bytes_of_other_pieces_are_kept() {
    let (torrent, mut file) = sample();
    file[PIECE_LEN + 5] = 9;
    let mut queue = torrent.enqueue_pieces(Some(file.clone()));
    let mut collector = torrent.download_pieces();
    let work = queue.take().unwrap();
    assert_eq!((work.index, queue.take()), (1, None));
    // the output holds other bytes around the place of the piece
    let mut output = vec![8; 3 * PIECE_LEN];
    let download = Download::Result(PieceResult {
        index: 1,
        buf: vec![2; PIECE_LEN],
    });
    let write = collector.take(&mut queue, download).unwrap();
    let begin = write.begin as usize;
    output[begin..begin + write.data.len()].copy_from_slice(&write.data);
    assert_eq!(output[..PIECE_LEN], vec![8; PIECE_LEN]);
    assert_eq!(output[PIECE_LEN..2 * PIECE_LEN], vec![2; PIECE_LEN]);
    assert_eq!(output[2 * PIECE_LEN..], vec![8; PIECE_LEN]);
    // two of three pieces were there before, so the last is not taken for it
    assert!(!write.done);
}

#[test]
fn backlog_counts_requests_less_blocks() {
    let mut download = PieceDownload::new(&work(0, 2 * MAX_BLOCKSIZE));
    let mut backlogs = vec![download.backlog];
    while let DownloadStep::Request(_) = download.next(false) {
        backlogs.push(download.backlog);
    }
    for begin in [0, 0, MAX_BLOCKSIZE] {
        // a block that comes twice counts twice
        download.take(&block(0, begin, &[1; 10])).unwrap();
        backlogs.push(download.backlog);
    }
    assert!(download.take(&block(1, 0, &[1])).is_err());
    assert!(download.take(&Message::new(opcode::CHOKE, None)).is_ok());
    backlogs.push(download.backlog);
    assert_eq!(backlogs, [0, 1, 2, 1, 0, -1, -1]);
    assert_eq!(download.downloaded, 30);
}

#[test]
fn collector_does_not_take_what_has_no_place() {
    let queue = PieceQueue::new(1);
    let piece = Download::Result(PieceResult {
        index: 2,
        buf: vec![],
    });
    assert!(!Collector::new(i64::MAX).takes(&queue, &piece));
    assert!(Collector::new(i64::MAX / 2).takes(&queue, &piece));
}
