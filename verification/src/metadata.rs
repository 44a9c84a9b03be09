//! Downloading a torrent's metadata from a peer.
use vstd::prelude::*;

use crate::bytes::{copy_range, overwrite, overwritten, push_bytes, same_bytes};
use crate::chunks::{chunk, chunk_count, chunk_start, lemma_chunk_count, lemma_chunk_step};
use crate::digest::{sha1, sha1_digest};
use crate::extension::{ExtMsg, HANDSHAKE_MESSAGE_ID, METADATA_DATA, METADATA_REQUEST};
use crate::message::{Message, MessageView};
use crate::opcode;
use crate::peer::PeerState;
use crate::torrent::Torrent;

verus! {

/// The length of every piece of metadata but the last.
pub const METADATA_PIECE_LEN: usize = 16384;

/// The metadata as far as it has come in.
#[derive(Debug)]
pub struct Gathering {
    /// The digest that the metadata is to have.
    pub info_hash: [u8; 20],
    /// The number under which the peer accepts metadata messages.
    pub message_id: u8,
    /// What has come in, and zeros.
    pub metadata: Vec<u8>,
    /// The piece that is asked for.
    pub piece: usize,
}

/// The download of metadata from a peer.
#[derive(Debug)]
pub enum MetadataDownload {
    /// Nothing has been asked for.
    Fresh(Gathering),
    /// A piece is asked for.
    Requesting(Gathering),
    /// The answer is awaited.
    Awaiting(Gathering),
    /// The head of the answer is decoded; this is all of the answer.
    Decoding(Gathering, Vec<u8>),
    /// Nothing more is done.
    Ended,
}

/// What has come of a download's last action.
#[derive(Debug)]
pub enum MetadataEvent {
    /// It has been performed.
    Ready,
    /// A message came in.
    Heard(Message),
    /// The head of an answer was decoded.
    Decoded(ExtMsg),
}

/// What a download does next.
#[derive(Debug)]
pub enum MetadataAction {
    /// A message is sent.
    Send(Message),
    /// A message of the extension protocol is awaited.
    Listen,
    /// The head of an answer is decoded from these bytes.
    Decode(Vec<u8>),
    /// The metadata is complete.
    Complete(Vec<u8>),
    /// The download fails.
    Fail(MetadataError),
}

/// Why a download of metadata fails.
#[derive(Debug, Clone, Copy, PartialEq, Eq, Structural)]
pub enum MetadataError {
    /// The peer did not tell the size of the metadata.
    NoSize,
    /// An answer was empty.
    EmptyAnswer,
    /// The digest of what came in is not the info hash.
    WrongHash,
}

impl MetadataError {
    /// What the error says.
    pub open spec fn text(self) -> Seq<char> {
        match self {
            MetadataError::NoSize => "no metadata size set"@,
            MetadataError::EmptyAnswer => "Unable to split extension message"@,
            MetadataError::WrongHash => "invalid info hash"@,
        }
    }

    /// What the error says.
    pub fn message(&self) -> (text: String)
        ensures
            text@ == self.text(),
    {
        match self {
            MetadataError::NoSize => "no metadata size set".to_owned(),
            MetadataError::EmptyAnswer => "Unable to split extension message".to_owned(),
            MetadataError::WrongHash => "invalid info hash".to_owned(),
        }
    }
}

/// `Gathering` with its contents as sequences.
#[verifier::ext_equal]
pub struct GatheringView {
    pub info_hash: Seq<u8>,
    pub message_id: u8,
    pub metadata: Seq<u8>,
    pub piece: nat,
}

/// `MetadataDownload` with its contents as sequences.
#[verifier::ext_equal]
pub enum MetadataView {
    Fresh(GatheringView),
    Requesting(GatheringView),
    Awaiting(GatheringView),
    Decoding(GatheringView, Seq<u8>),
    Ended,
}

/// An event with its contents as sequences.
#[verifier::ext_equal]
pub enum MetadataEventView {
    Ready,
    Heard(MessageView),
    Decoded(ExtMsg),
}

/// An action with its contents as sequences.
#[verifier::ext_equal]
pub enum MetadataActionView {
    Send(MessageView),
    Listen,
    Decode(Seq<u8>),
    Complete(Seq<u8>),
    Fail(MetadataError),
}

impl View for Gathering {
    type V = GatheringView;

    open spec fn view(&self) -> GatheringView {
        GatheringView {
            info_hash: self.info_hash@,
            message_id: self.message_id,
            metadata: self.metadata@,
            piece: self.piece as nat,
        }
    }
}

impl View for MetadataDownload {
    type V = MetadataView;

    open spec fn view(&self) -> MetadataView {
        match *self {
            MetadataDownload::Fresh(g) => MetadataView::Fresh(g@),
            MetadataDownload::Requesting(g) => MetadataView::Requesting(g@),
            MetadataDownload::Awaiting(g) => MetadataView::Awaiting(g@),
            MetadataDownload::Decoding(g, answer) => MetadataView::Decoding(g@, answer@),
            MetadataDownload::Ended => MetadataView::Ended,
        }
    }
}

impl View for MetadataEvent {
    type V = MetadataEventView;

    open spec fn view(&self) -> MetadataEventView {
        match *self {
            MetadataEvent::Ready => MetadataEventView::Ready,
            MetadataEvent::Heard(message) => MetadataEventView::Heard(message@),
            MetadataEvent::Decoded(head) => MetadataEventView::Decoded(head),
        }
    }
}

impl View for MetadataAction {
    type V = MetadataActionView;

    open spec fn view(&self) -> MetadataActionView {
        match *self {
            MetadataAction::Send(message) => MetadataActionView::Send(message@),
            MetadataAction::Listen => MetadataActionView::Listen,
            MetadataAction::Decode(bytes) => MetadataActionView::Decode(bytes@),
            MetadataAction::Complete(metadata) => MetadataActionView::Complete(metadata@),
            MetadataAction::Fail(error) => MetadataActionView::Fail(error),
        }
    }
}

/// The number of pieces in metadata of `len` bytes.
pub open spec fn metadata_pieces(len: nat) -> nat {
    chunk_count(len, METADATA_PIECE_LEN as nat)
}

/// The message that asks a peer for a piece of metadata.
pub open spec fn metadata_request(message_id: u8, piece: i32) -> MessageView {
    MessageView {
        id: opcode::EXTENDED,
        payload: seq![message_id] + (ExtMsg {
            msg_type: METADATA_REQUEST,
            piece,
            total_size: None,
        }).encoded(),
    }
}

/// The head of the message that gives a piece of metadata.
pub open spec fn metadata_head(metadata: Seq<u8>, piece: i32) -> ExtMsg {
    ExtMsg { msg_type: METADATA_DATA, piece, total_size: Some(metadata.len() as i32) }
}

/// The message that gives a peer a piece of metadata.
pub open spec fn metadata_answer(metadata: Seq<u8>, piece: i32) -> MessageView {
    MessageView {
        id: opcode::EXTENDED,
        payload: seq![HANDSHAKE_MESSAGE_ID] + metadata_head(metadata, piece).encoded() + chunk(
            metadata,
            METADATA_PIECE_LEN as nat,
            piece as nat,
        ),
    }
}

impl GatheringView {
    /// Where a piece begins.
    pub open spec fn begin(self, piece: i32) -> int {
        piece * METADATA_PIECE_LEN
    }

    /// The length of a piece.
    pub open spec fn size(self, piece: i32) -> int {
        if self.begin(piece) + METADATA_PIECE_LEN < self.metadata.len() {
            METADATA_PIECE_LEN as int
        } else {
            self.metadata.len() - self.begin(piece)
        }
    }

    /// Whether an answer can be put in its place: it begins in the metadata, and
    /// it is long enough.
    pub open spec fn fits(self, answer: Seq<u8>, piece: i32) -> bool {
        &&& 0 <= self.begin(piece) <= self.metadata.len()
        &&& self.size(piece) <= answer.len()
    }

    /// What is there after an answer has been put in its place. The piece is what
    /// the answer ends in.
    pub open spec fn with(self, answer: Seq<u8>, piece: i32) -> GatheringView {
        GatheringView {
            metadata: overwritten(
                self.metadata,
                self.begin(piece),
                answer.skip(answer.len() - self.size(piece)),
            ),
            piece: self.piece + 1,
            ..self
        }
    }

    /// How the download goes on: by asking for the next piece, or, if there is
    /// none, by comparing the digest.
    pub open spec fn proceed(self) -> (MetadataView, MetadataActionView) {
        if self.piece < metadata_pieces(self.metadata.len()) {
            (
                MetadataView::Requesting(self),
                MetadataActionView::Send(metadata_request(self.message_id, self.piece as i32)),
            )
        } else if sha1_digest(self.metadata) == self.info_hash {
            (MetadataView::Ended, MetadataActionView::Complete(self.metadata))
        } else {
            (MetadataView::Ended, MetadataActionView::Fail(MetadataError::WrongHash))
        }
    }
}

impl MetadataView {
    /// The download of `size` bytes before anything has been asked for.
    pub open spec fn start(info_hash: Seq<u8>, message_id: u8, size: u32) -> MetadataView {
        MetadataView::Fresh(
            GatheringView {
                info_hash,
                message_id,
                metadata: Seq::new(size as nat, |i: int| 0u8),
                piece: 0,
            },
        )
    }

    /// The metadata has a size that peers can tell, and the piece that is asked
    /// for is one of it.
    pub open spec fn wf(self) -> bool {
        match self {
            MetadataView::Fresh(g) => g.metadata.len() <= u32::MAX && g.piece == 0,
            MetadataView::Requesting(g) => g.metadata.len() <= u32::MAX && g.piece
                < metadata_pieces(g.metadata.len()),
            MetadataView::Awaiting(g) => g.metadata.len() <= u32::MAX && g.piece
                < metadata_pieces(g.metadata.len()),
            MetadataView::Decoding(g, _) => g.metadata.len() <= u32::MAX && g.piece
                < metadata_pieces(g.metadata.len()),
            MetadataView::Ended => true,
        }
    }

    /// Whether an event can follow the last action.
    pub open spec fn expects(self, event: MetadataEventView) -> bool {
        match (self, event) {
            (MetadataView::Fresh(_), MetadataEventView::Ready) => true,
            (MetadataView::Requesting(_), MetadataEventView::Ready) => true,
            (MetadataView::Awaiting(_), MetadataEventView::Heard(_)) => true,
            (MetadataView::Decoding(g, answer), MetadataEventView::Decoded(head)) => g.fits(
                answer,
                head.piece,
            ),
            _ => false,
        }
    }

    /// Where the download stands after an event, and what is done next.
    pub open spec fn step(self, event: MetadataEventView) -> (MetadataView, MetadataActionView) {
        match (self, event) {
            (MetadataView::Fresh(g), _) => g.proceed(),
            (MetadataView::Requesting(g), _) => (
                MetadataView::Awaiting(g),
                MetadataActionView::Listen,
            ),
            (MetadataView::Awaiting(g), MetadataEventView::Heard(message)) => if message.payload.len()
                == 0 {
                (MetadataView::Ended, MetadataActionView::Fail(MetadataError::EmptyAnswer))
            } else {
                (
                    MetadataView::Decoding(g, message.payload),
                    MetadataActionView::Decode(message.payload.skip(1)),
                )
            },
            (MetadataView::Decoding(g, answer), MetadataEventView::Decoded(head)) => g.with(
                answer,
                head.piece,
            ).proceed(),
            _ => (MetadataView::Ended, MetadataActionView::Listen),
        }
    }
}

impl Gathering {
    /// Goes on with the download.
    fn proceed(self) -> (result: (MetadataDownload, MetadataAction))
        requires
            self@.metadata.len() <= u32::MAX,
        ensures
            result.0@.wf(),
            (result.0@, result.1@) == self@.proceed(),
    {
        let len: usize = self.metadata.len();
        let count: usize = if len % METADATA_PIECE_LEN == 0 {
            len / METADATA_PIECE_LEN
        } else {
            len / METADATA_PIECE_LEN + 1
        };
        assert(count == metadata_pieces(len as nat));
        if self.piece < count {
            let request = ExtMsg {
                msg_type: METADATA_REQUEST,
                piece: self.piece as i32,
                total_size: None,
            };
            let mut payload: Vec<u8> = Vec::new();
            payload.push(self.message_id);
            push_bytes(&mut payload, request.to_bytes().as_slice());
            let message = Message { id: opcode::EXTENDED, payload };
            assert(message@ =~= metadata_request(self.message_id, self.piece as i32));
            (MetadataDownload::Requesting(self), MetadataAction::Send(message))
        } else {
            let digest = sha1(self.metadata.as_slice());
            if same_bytes(&digest, &self.info_hash) {
                (MetadataDownload::Ended, MetadataAction::Complete(self.metadata))
            } else {
                (MetadataDownload::Ended, MetadataAction::Fail(MetadataError::WrongHash))
            }
        }
    }

    /// Whether an answer can be put in its place.
    fn fits(&self, answer: &Vec<u8>, piece: i32) -> (fits: bool)
        requires
            self@.metadata.len() <= u32::MAX,
        ensures
            fits == self@.fits(answer@, piece),
    {
        let begin: i64 = piece as i64 * METADATA_PIECE_LEN as i64;
        let len: i64 = self.metadata.len() as i64;
        if begin < 0 || begin > len {
            return false;
        }
        let size: i64 = if begin + (METADATA_PIECE_LEN as i64) < len {
            METADATA_PIECE_LEN as i64
        } else {
            len - begin
        };
        size as usize <= answer.len()
    }
}

impl MetadataDownload {
    /// Whether an event can follow the last action.
    pub fn expects(&self, event: &MetadataEvent) -> (expected: bool)
        requires
            self@.wf(),
        ensures
            expected == self@.expects(event@),
    {
        match (self, event) {
            (MetadataDownload::Fresh(_), MetadataEvent::Ready) => true,
            (MetadataDownload::Requesting(_), MetadataEvent::Ready) => true,
            (MetadataDownload::Awaiting(_), MetadataEvent::Heard(_)) => true,
            (MetadataDownload::Decoding(g, answer), MetadataEvent::Decoded(head)) => {
                g.fits(answer, head.piece)
            },
            _ => false,
        }
    }

    /// Decides, after an event, what is done next.
    pub fn step(self, event: MetadataEvent) -> (result: (MetadataDownload, MetadataAction))
        requires
            self@.wf(),
            self@.expects(event@),
        ensures
            result.0@.wf(),
            (result.0@, result.1@) == self@.step(event@),
    {
        match (self, event) {
            (MetadataDownload::Fresh(g), _) => g.proceed(),
            (MetadataDownload::Requesting(g), _) => (
                MetadataDownload::Awaiting(g),
                MetadataAction::Listen,
            ),
            (MetadataDownload::Awaiting(g), MetadataEvent::Heard(message)) => {
                if message.payload.len() == 0 {
                    (MetadataDownload::Ended, MetadataAction::Fail(MetadataError::EmptyAnswer))
                } else {
                    let head = copy_range(message.payload.as_slice(), 1, message.payload.len());
                    assert(head@ =~= message.payload@.skip(1));
                    (
                        MetadataDownload::Decoding(g, message.payload),
                        MetadataAction::Decode(head),
                    )
                }
            },
            (MetadataDownload::Decoding(mut g, answer), MetadataEvent::Decoded(head)) => {
                let ghost before = g@;
                let begin: usize = head.piece as usize * METADATA_PIECE_LEN;
                let len: usize = g.metadata.len();
                let size: usize = if len - begin > METADATA_PIECE_LEN {
                    METADATA_PIECE_LEN
                } else {
                    len - begin
                };
                overwrite(&mut g.metadata, begin, answer.as_slice(), answer.len() - size);
                g.piece = g.piece + 1;
                assert(g@ =~= before.with(answer@, head.piece));
                g.proceed()
            },
            _ => (MetadataDownload::Ended, MetadataAction::Listen),
        }
    }
}

impl Torrent {
    /// Starts the download of metadata from a peer, if the peer has told its
    /// size.
    pub fn download_metadata(&self, state: &PeerState) -> (result: Result<
        MetadataDownload,
        MetadataError,
    >)
        ensures
            match state.metadata_size {
                Some(size) => {
                    &&& result matches Ok(download)
                    &&& download@ == MetadataView::start(self.info_hash@, state.message_id, size)
                    &&& download@.wf()
                },
                None => result == Err::<MetadataDownload, MetadataError>(MetadataError::NoSize),
            },
    {
        match state.metadata_size {
            Some(size) => {
                let gathering = Gathering {
                    info_hash: self.info_hash,
                    message_id: state.message_id,
                    metadata: vec![0u8; size as usize],
                    piece: 0,
                };
                assert(gathering@.metadata =~= Seq::new(size as nat, |i: int| 0u8));
                Ok(MetadataDownload::Fresh(gathering))
            },
            None => Err(MetadataError::NoSize),
        }
    }
}

/// A download after its peer has answered `k` requests with the pieces of
/// `data` that they asked for.
pub open spec fn answered_download(download: MetadataView, data: Seq<u8>, k: nat) -> (
    MetadataView,
    MetadataActionView,
)
    decreases k,
{
    if k == 0 {
        download.step(MetadataEventView::Ready)
    } else {
        let piece = (k - 1) as i32;
        let (requesting, _) = answered_download(download, data, (k - 1) as nat);
        let (awaiting, _) = requesting.step(MetadataEventView::Ready);
        let (decoding, _) = awaiting.step(MetadataEventView::Heard(metadata_answer(data, piece)));
        decoding.step(MetadataEventView::Decoded(metadata_head(data, piece)))
    }
}

proof fn lemma_answered(info_hash: Seq<u8>, message_id: u8, data: Seq<u8>, k: nat)
    requires
        data.len() <= u32::MAX,
        k <= metadata_pieces(data.len()),
    ensures
        ({
            let size = METADATA_PIECE_LEN as nat;
            let at = chunk_start(data.len(), size, k) as int;
            let download = MetadataView::start(info_hash, message_id, data.len() as u32);
            answered_download(download, data, k) == (GatheringView {
                info_hash,
                message_id,
                metadata: Seq::new(data.len(), |i: int| if i < at { data[i] } else { 0u8 }),
                piece: k,
            }).proceed()
        }),
    decreases k,
{
    let size = METADATA_PIECE_LEN as nat;
    let len = data.len();
    let download = MetadataView::start(info_hash, message_id, len as u32);
    let at = chunk_start(len, size, k) as int;
    let now = GatheringView {
        info_hash,
        message_id,
        metadata: Seq::new(len, |i: int| if i < at { data[i] } else { 0u8 }),
        piece: k,
    };
    if k == 0 {
        assert(now.metadata =~= Seq::new(len as u32 as nat, |i: int| 0u8));
    } else {
        let j = (k - 1) as nat;
        let piece = j as i32;
        let from = chunk_start(len, size, j) as int;
        let before = GatheringView {
            info_hash,
            message_id,
            metadata: Seq::new(len, |i: int| if i < from { data[i] } else { 0u8 }),
            piece: j,
        };
        lemma_answered(info_hash, message_id, data, j);
        lemma_chunk_count(len, size, j);
        lemma_chunk_step(len, size, j);
        let answer = metadata_answer(data, piece).payload;
        let block = chunk(data, size, j);
        assert(answer.len() > 0);
        assert(before.size(piece) == block.len());
        assert(answer.skip(answer.len() - block.len()) =~= block);
        assert(before.with(answer, piece).metadata =~= now.metadata);
    }
}

/// Metadata that a peer serves comes in as it is: if the peer answers each
/// request with the piece of `data` that was asked for, every answer finds its
/// place, and the download ends with `data` if its digest is the info hash,
/// and with an error if it is not.
pub proof fn law_metadata_comes_in(info_hash: Seq<u8>, message_id: u8, data: Seq<u8>)
    requires
        data.len() <= u32::MAX,
    ensures
        ({
            let download = MetadataView::start(info_hash, message_id, data.len() as u32);
            let count = metadata_pieces(data.len());
            let (last, action) = answered_download(download, data, count);
            &&& last == MetadataView::Ended
            &&& action == if sha1_digest(data) == info_hash {
                MetadataActionView::Complete(data)
            } else {
                MetadataActionView::Fail(MetadataError::WrongHash)
            }
            &&& forall|k: nat|
                k < count ==> {
                    &&& (#[trigger] answered_download(download, data, k)).1
                        == MetadataActionView::Send(metadata_request(message_id, k as i32))
                    &&& answered_download(download, data, k).0 matches MetadataView::Requesting(g)
                    &&& g.fits(metadata_answer(data, k as i32).payload, k as i32)
                }
        }),
{
    let size = METADATA_PIECE_LEN as nat;
    let len = data.len();
    let download = MetadataView::start(info_hash, message_id, len as u32);
    let count = metadata_pieces(len);
    lemma_answered(info_hash, message_id, data, count);
    lemma_chunk_count(len, size, count);
    let at = chunk_start(len, size, count) as int;
    assert(Seq::new(len, |i: int| if i < at { data[i] } else { 0u8 }) =~= data);
    assert forall|k: nat| k < count implies {
        &&& (#[trigger] answered_download(download, data, k)).1 == MetadataActionView::Send(
            metadata_request(message_id, k as i32),
        )
        &&& answered_download(download, data, k).0 matches MetadataView::Requesting(g)
        &&& g.fits(metadata_answer(data, k as i32).payload, k as i32)
    } by {
        lemma_answered(info_hash, message_id, data, k);
        lemma_chunk_count(len, size, k);
        lemma_chunk_step(len, size, k);
        let answer = metadata_answer(data, k as i32).payload;
        assert(answer.len() >= chunk(data, size, k).len());
    }
}

/// A download of metadata begins with as many zeros as the peer has told, and
/// with the first piece.
pub proof fn law_metadata_begins_empty(info_hash: Seq<u8>, message_id: u8, size: u32, i: int)
    ensures
        MetadataView::start(info_hash, message_id, size) matches MetadataView::Fresh(g) && {
            &&& g.info_hash == info_hash
            &&& g.message_id == message_id
            &&& g.metadata.len() == size
            &&& 0 <= i < size ==> g.metadata[i] == 0
            &&& g.piece == 0
        },
{
}

/// As long as metadata is left to ask for, the next piece is asked for, under the
/// number that the peer has told. Then what came in is complete if its digest is
/// the info hash, and wrong if it is not.
pub proof fn law_metadata_is_asked_for(g: GatheringView)
    requires
        g.metadata.len() <= u32::MAX,
    ensures
        g.piece * 16384 < g.metadata.len() ==> g.proceed() == (
            MetadataView::Requesting(g),
            MetadataActionView::Send(
                MessageView {
                    id: opcode::EXTENDED,
                    payload: seq![g.message_id] + (ExtMsg {
                        msg_type: 0,
                        piece: g.piece as i32,
                        total_size: None,
                    }).encoded(),
                },
            ),
        ),
        g.piece * 16384 >= g.metadata.len() && sha1_digest(g.metadata) == g.info_hash
            ==> g.proceed() == (
            MetadataView::Ended,
            MetadataActionView::Complete(g.metadata),
        ),
        g.piece * 16384 >= g.metadata.len() && sha1_digest(g.metadata) != g.info_hash
            ==> g.proceed() == (
            MetadataView::Ended,
            MetadataActionView::Fail(MetadataError::WrongHash),
        ),
{
    lemma_chunk_count(g.metadata.len(), METADATA_PIECE_LEN as nat, g.piece);
}

/// An answer fits if its piece begins in the metadata and it has as many bytes as
/// are due there: 16384, or all that are left. The last so many bytes of it then
/// stand where the piece begins, and all other bytes stay.
pub proof fn law_metadata_takes_its_place(g: GatheringView, answer: Seq<u8>, piece: i32, i: int)
    ensures
        ({
            let begin = piece * 16384;
            let left = g.metadata.len() - begin;
            let due = if left > 16384 {
                16384
            } else {
                left
            };
            let after = g.with(answer, piece);
            &&& g.fits(answer, piece) <==> 0 <= begin <= g.metadata.len() && due <= answer.len()
            &&& g.fits(answer, piece) ==> {
                &&& after.metadata.len() == g.metadata.len()
                &&& begin <= i < begin + due ==> after.metadata[i] == answer[answer.len() - due + i
                    - begin]
                &&& 0 <= i < g.metadata.len() && !(begin <= i < begin + due) ==> after.metadata[i]
                    == g.metadata[i]
                &&& after.piece == g.piece + 1
                &&& after.info_hash == g.info_hash
                &&& after.message_id == g.message_id
            }
        }),
{
}

/// After a request the answer is awaited. An empty answer is an error; of any other
/// the head is decoded, which follows its first byte. Then the answer is put in
/// its place, and the download goes on.
pub proof fn law_metadata_answers_are_taken(g: GatheringView, message: MessageView, head: ExtMsg)
    ensures
        ({
            let ready = MetadataEventView::Ready;
            let heard = MetadataEventView::Heard(message);
            let decoded = MetadataEventView::Decoded(head);
            let decoding = MetadataView::Decoding(g, message.payload);
            &&& MetadataView::Fresh(g).expects(ready)
            &&& MetadataView::Fresh(g).step(ready) == g.proceed()
            &&& MetadataView::Requesting(g).expects(ready)
            &&& MetadataView::Requesting(g).step(ready) == (
                MetadataView::Awaiting(g),
                MetadataActionView::Listen,
            )
            &&& MetadataView::Awaiting(g).expects(heard)
            &&& message.payload.len() == 0 ==> MetadataView::Awaiting(g).step(heard) == (
                MetadataView::Ended,
                MetadataActionView::Fail(MetadataError::EmptyAnswer),
            )
            &&& message.payload.len() > 0 ==> MetadataView::Awaiting(g).step(heard) == (
                decoding,
                MetadataActionView::Decode(
                    message.payload.subrange(1, message.payload.len() as int),
                ),
            )
            &&& decoding.expects(decoded) <==> g.fits(message.payload, head.piece)
            &&& decoding.step(decoded) == g.with(message.payload, head.piece).proceed()
        }),
{
    if message.payload.len() > 0 {
        assert(message.payload.skip(1) =~= message.payload.subrange(
            1,
            message.payload.len() as int,
        ));
    }
}

/// The models of a download, of events and of actions have all that these have.
pub proof fn law_metadata_is_modelled(
    download: MetadataDownload,
    event: MetadataEvent,
    action: MetadataAction,
    g: Gathering,
)
    ensures
        g@.info_hash == g.info_hash@,
        g@.message_id == g.message_id,
        g@.metadata == g.metadata@,
        g@.piece == g.piece,
        download matches MetadataDownload::Fresh(g) ==> download@ == MetadataView::Fresh(g@),
        download matches MetadataDownload::Requesting(g) ==> download@ == MetadataView::Requesting(
            g@,
        ),
        download matches MetadataDownload::Awaiting(g) ==> download@ == MetadataView::Awaiting(g@),
        download matches MetadataDownload::Decoding(g, answer) ==> download@
            == MetadataView::Decoding(g@, answer@),
        download@ is Ended <==> download is Ended,
        event@ is Ready <==> event is Ready,
        event matches MetadataEvent::Heard(message) ==> event@ == MetadataEventView::Heard(
            message@,
        ),
        event matches MetadataEvent::Decoded(head) ==> event@ == MetadataEventView::Decoded(head),
        action matches MetadataAction::Send(message) ==> action@ == MetadataActionView::Send(
            message@,
        ),
        action@ is Listen <==> action is Listen,
        action matches MetadataAction::Decode(bytes) ==> action@ == MetadataActionView::Decode(
            bytes@,
        ),
        action matches MetadataAction::Complete(metadata) ==> action@
            == MetadataActionView::Complete(metadata@),
        action matches MetadataAction::Fail(error) ==> action@ == MetadataActionView::Fail(error),
{
}

/// What errors say.
pub proof fn law_metadata_errors_say_what_is_wrong(error: MetadataError)
    ensures
        error.text() == "no metadata size set"@ <==> error is NoSize,
        error.text() == "Unable to split extension message"@ <==> error is EmptyAnswer,
        error.text() == "invalid info hash"@ <==> error is WrongHash,
{
    reveal_strlit("no metadata size set");
    reveal_strlit("Unable to split extension message");
    reveal_strlit("invalid info hash");
    assert("no metadata size set"@.len() == 20);
    assert("Unable to split extension message"@.len() == 33);
    assert("invalid info hash"@.len() == 17);
}

} // verus!
