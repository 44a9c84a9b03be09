//! Downloading one piece from one peer.
use vstd::prelude::*;

use crate::bytes::{
    be32, be32_value, lemma_be32_value, overwrite, overwritten, push_be32, read_be32,
};
use crate::message::{Message, MessageView};
use crate::opcode;
use crate::peer::PeerView;
use crate::text::{decimal, decimal_nat, nat_text};
use crate::work::PieceWork;

verus! {

/// How many requests may be unanswered at a time.
pub const MAX_BACKLOG: i32 = 5;

/// How many bytes are asked for at a time.
pub const MAX_BLOCKSIZE: u32 = 16384;

/// The longest piece that can be downloaded: beyond it the offset after a
/// whole block would exceed 32 bits.
pub const MAX_PIECE: u32 = 0xffff_c000;

/// The kinds of message that are listened for while a piece is downloaded.
pub open spec fn heard_in_download() -> Seq<u8> {
    seq![opcode::PIECE, opcode::CHOKE, opcode::UNCHOKE, opcode::HAVE]
}

/// The kinds of message that are listened for while a piece is downloaded.
pub fn download_kinds() -> (kinds: [u8; 4])
    ensures
        kinds@ == heard_in_download(),
        kinds@ == seq![opcode::PIECE, opcode::CHOKE, opcode::UNCHOKE, opcode::HAVE],
{
    [opcode::PIECE, opcode::CHOKE, opcode::UNCHOKE, opcode::HAVE]
}

/// The download of a piece.
#[derive(Debug)]
pub struct PieceDownload {
    /// Which piece it is.
    pub index: usize,
    /// Its contents as far as they have come in, and zeros.
    pub buf: Vec<u8>,
    /// How many bytes have come in.
    pub downloaded: u32,
    /// How many requests are unanswered.
    pub backlog: i32,
    /// How many bytes have been asked for.
    pub requested: u32,
}

/// The download of a piece with its contents as a sequence.
#[verifier::ext_equal]
pub struct PieceDownloadView {
    pub index: usize,
    pub buf: Seq<u8>,
    pub downloaded: u32,
    pub backlog: i32,
    pub requested: u32,
}

/// What a download does next.
#[derive(Debug)]
pub enum DownloadStep {
    /// Everything has come in.
    Done,
    /// A request is sent.
    Request(Message),
    /// The peer's next message is awaited.
    Listen,
}

/// Why a download fails.
#[derive(Debug, Clone, Copy, PartialEq, Eq, Structural)]
pub enum PieceError {
    /// The peer sent a block of another piece.
    WrongIndex { index: u32, expected: usize },
    /// The peer sent a block that begins behind the piece's end.
    BeginTooHigh,
    /// The peer sent a block that ends behind the piece's end.
    DataTooLong { data_len: usize, begin: usize, len: usize },
}

impl PieceError {
    /// What the error says.
    pub open spec fn text(self) -> Seq<char> {
        match self {
            PieceError::WrongIndex { index, expected } => "Expected index "@ + decimal_nat(
                index as nat,
            ) + ", got "@ + decimal_nat(expected as nat),
            PieceError::BeginTooHigh => "Begin offset to high"@,
            PieceError::DataTooLong { data_len, begin, len } => "Data to long ("@ + decimal_nat(
                data_len as nat,
            ) + ") for offset "@ + decimal_nat(begin as nat) + " with len "@ + decimal_nat(
                len as nat,
            ),
        }
    }

    /// What the error says.
    pub fn message(&self) -> (text: String)
        ensures
            text@ == self.text(),
    {
        match self {
            PieceError::WrongIndex { index, expected } => {
                let mut text = "Expected index ".to_owned();
                text.append(nat_text(*index as u64).as_str());
                text.append(", got ");
                text.append(nat_text(*expected as u64).as_str());
                text
            },
            PieceError::BeginTooHigh => "Begin offset to high".to_owned(),
            PieceError::DataTooLong { data_len, begin, len } => {
                let mut text = "Data to long (".to_owned();
                text.append(nat_text(*data_len as u64).as_str());
                text.append(") for offset ");
                text.append(nat_text(*begin as u64).as_str());
                text.append(" with len ");
                text.append(nat_text(*len as u64).as_str());
                text
            },
        }
    }
}

/// The message that asks for `len` bytes at offset `begin` of a piece.
pub open spec fn request_message(index: u32, begin: u32, len: u32) -> MessageView {
    MessageView { id: opcode::REQUEST, payload: be32(index) + be32(begin) + be32(len) }
}

/// The message that gives the bytes `data` at offset `begin` of a piece.
pub open spec fn block_message(index: u32, begin: u32, data: Seq<u8>) -> MessageView {
    MessageView { id: opcode::PIECE, payload: be32(index) + be32(begin) + data }
}

impl View for PieceDownload {
    type V = PieceDownloadView;

    open spec fn view(&self) -> PieceDownloadView {
        PieceDownloadView {
            index: self.index,
            buf: self.buf@,
            downloaded: self.downloaded,
            backlog: self.backlog,
            requested: self.requested,
        }
    }
}

impl PieceDownloadView {
    /// The download of a piece before anything has been asked for.
    pub open spec fn start(index: usize, len: u32) -> PieceDownloadView {
        PieceDownloadView {
            index,
            buf: Seq::new(len as nat, |i: int| 0u8),
            downloaded: 0,
            backlog: 0,
            requested: 0,
        }
    }

    /// What has been asked for lies in the piece and consists of whole blocks,
    /// but for a shorter one at the end.
    pub open spec fn wf(self) -> bool {
        &&& self.requested <= self.buf.len() <= MAX_PIECE
        &&& self.requested % MAX_BLOCKSIZE == 0 || self.requested == self.buf.len()
        &&& self.backlog <= MAX_BACKLOG
    }

    /// Whether as many bytes as the piece has have come in.
    pub open spec fn done(self) -> bool {
        self.downloaded >= self.buf.len()
    }

    /// Whether a request is due: the peer accepts requests, not too many are
    /// unanswered, and part of the piece has not been asked for.
    pub open spec fn wants_request(self, choked: bool) -> bool {
        &&& !self.done()
        &&& !choked
        &&& self.backlog < MAX_BACKLOG
        &&& self.requested < self.buf.len()
    }

    /// The length of the block that is asked for next.
    pub open spec fn next_len(self) -> u32 {
        if self.buf.len() - self.requested < MAX_BLOCKSIZE {
            (self.buf.len() - self.requested) as u32
        } else {
            MAX_BLOCKSIZE
        }
    }

    /// The request that is sent next.
    pub open spec fn next_request(self) -> MessageView {
        request_message(self.index as u32, self.requested, self.next_len())
    }

    /// The download after that request has been sent.
    pub open spec fn after_request(self) -> PieceDownloadView {
        PieceDownloadView {
            backlog: (self.backlog + 1) as i32,
            requested: (self.requested + self.next_len()) as u32,
            ..self
        }
    }

    /// Why a block is refused, if it is.
    pub open spec fn refusal(self, payload: Seq<u8>) -> Option<PieceError> {
        let index = be32_value(payload);
        let begin = be32_value(payload.skip(4));
        let data_len = payload.len() - 8;
        if index != self.index {
            Some(PieceError::WrongIndex { index, expected: self.index })
        } else if begin > self.buf.len() {
            Some(PieceError::BeginTooHigh)
        } else if begin + data_len > self.buf.len() {
            Some(
                PieceError::DataTooLong {
                    data_len: data_len as usize,
                    begin: begin as usize,
                    len: self.buf.len() as usize,
                },
            )
        } else {
            None
        }
    }

    /// Whether a message can be dealt with: a block has its index, and, if that
    /// is the piece's, its offset, and the counts stay within their types.
    pub open spec fn can_take(self, message: MessageView) -> bool {
        message.id == opcode::PIECE ==> {
            &&& message.payload.len() >= 4
            &&& be32_value(message.payload) == self.index ==> {
                &&& message.payload.len() >= 8
                &&& self.refusal(message.payload) is None ==> {
                    &&& self.downloaded + (message.payload.len() - 8) <= u32::MAX
                    &&& self.backlog > i32::MIN
                }
            }
        }
    }

    /// The download after a block that is not refused.
    pub open spec fn after_block(self, payload: Seq<u8>) -> PieceDownloadView {
        PieceDownloadView {
            buf: overwritten(self.buf, be32_value(payload.skip(4)) as int, payload.skip(8)),
            downloaded: (self.downloaded + (payload.len() - 8)) as u32,
            backlog: (self.backlog - 1) as i32,
            ..self
        }
    }
}

impl PieceDownload {
    /// Starts the download of a piece.
    pub fn new(work: &PieceWork) -> (download: PieceDownload)
        requires
            work.len <= MAX_PIECE,
        ensures
            download@ == PieceDownloadView::start(work.index, work.len),
            download@.wf(),
    {
        let download = PieceDownload {
            index: work.index,
            buf: vec![0u8; work.len as usize],
            downloaded: 0,
            backlog: 0,
            requested: 0,
        };
        assert(download@ =~= PieceDownloadView::start(work.index, work.len));
        download
    }

    /// Decides what is done next: nothing once everything has come in, else a
    /// request if one is due, else to listen.
    pub fn next(&mut self, choked: bool) -> (step: DownloadStep)
        requires
            old(self)@.wf(),
        ensures
            final(self)@.wf(),
            step is Done <==> old(self)@.done(),
            step is Request <==> old(self)@.wants_request(choked),
            step matches DownloadStep::Request(message) ==> {
                &&& message@ == old(self)@.next_request()
                &&& final(self)@ == old(self)@.after_request()
            },
            !(step is Request) ==> final(self)@ == old(self)@,
    {
        let len: u32 = self.buf.len() as u32;
        if self.downloaded >= len {
            return DownloadStep::Done;
        }
        if choked || self.backlog >= MAX_BACKLOG || self.requested >= len {
            return DownloadStep::Listen;
        }
        let end: u32 = if len < self.requested + MAX_BLOCKSIZE {
            len
        } else {
            self.requested + MAX_BLOCKSIZE
        };
        let blocksize: u32 = end - self.requested;
        let mut payload: Vec<u8> = Vec::new();
        push_be32(
            &mut payload,
            #[verifier::truncate]
            (self.index as u32),
        );
        push_be32(&mut payload, self.requested);
        push_be32(&mut payload, blocksize);
        let message = Message { id: opcode::REQUEST, payload };
        assert(message@ =~= self@.next_request());
        self.backlog = self.backlog + 1;
        self.requested = end;
        DownloadStep::Request(message)
    }

    /// Whether a message can be dealt with.
    pub fn can_take(&self, message: &Message) -> (can: bool)
        requires
            self@.wf(),
        ensures
            can == self@.can_take(message@),
    {
        if message.id != opcode::PIECE {
            return true;
        }
        let payload: &[u8] = message.payload.as_slice();
        if payload.len() < 4 {
            return false;
        }
        if read_be32(payload) as usize != self.index {
            return true;
        }
        if payload.len() < 8 {
            return false;
        }
        let (_, rest) = payload.split_at(4);
        let begin: usize = read_be32(rest) as usize;
        let data_len: usize = payload.len() - 8;
        if begin > self.buf.len() || data_len > self.buf.len() - begin {
            return true;
        }
        self.backlog > i32::MIN && data_len as u64 + self.downloaded as u64 <= u32::MAX as u64
    }

    /// Deals with a message: a block of the piece is taken in, any other kind of
    /// message changes nothing.
    pub fn take(&mut self, message: &Message) -> (result: Result<(), PieceError>)
        requires
            old(self)@.wf(),
            old(self)@.can_take(message@),
        ensures
            final(self)@.wf(),
            message.id != opcode::PIECE ==> result is Ok && final(self)@ == old(self)@,
            message.id == opcode::PIECE ==> match old(self)@.refusal(message.payload@) {
                Some(error) => result == Err::<(), PieceError>(error) && final(self)@ == old(
                    self,
                )@,
                None => result is Ok && final(self)@ == old(self)@.after_block(message.payload@),
            },
    {
        if message.id != opcode::PIECE {
            return Ok(());
        }
        let payload: &[u8] = message.payload.as_slice();
        let index: u32 = read_be32(payload);
        if index as usize != self.index {
            return Err(PieceError::WrongIndex { index, expected: self.index });
        }
        let (_, rest) = payload.split_at(4);
        let begin: usize = read_be32(rest) as usize;
        if begin > self.buf.len() {
            return Err(PieceError::BeginTooHigh);
        }
        let data_len: usize = payload.len() - 8;
        if data_len > self.buf.len() - begin {
            return Err(PieceError::DataTooLong { data_len, begin, len: self.buf.len() });
        }
        overwrite(&mut self.buf, begin, payload, 8);
        self.downloaded = self.downloaded + data_len as u32;
        self.backlog = self.backlog - 1;
        assert(self@ =~= old(self)@.after_block(message.payload@));
        Ok(())
    }
}

/// A download begins with as many zeros as the piece is long, and nothing asked
/// for.
pub proof fn law_download_begins_empty(index: usize, len: u32, i: int)
    ensures
        ({
            let download = PieceDownloadView::start(index, len);
            &&& download.index == index
            &&& download.buf.len() == len
            &&& 0 <= i < len ==> download.buf[i] == 0
            &&& download.downloaded == 0
            &&& download.backlog == 0
            &&& download.requested == 0
        }),
{
}

/// A download is done when as many bytes have come in as the piece is long. Until
/// then a request is due just when the peer does not choke, fewer than five
/// requests are unanswered, and the end has not been asked for.
pub proof fn law_requests_are_due(download: PieceDownloadView, choked: bool)
    ensures
        download.done() <==> download.buf.len() <= download.downloaded,
        download.wants_request(choked) <==> !(choked || download.backlog >= 5 || download.requested
            >= download.buf.len() || download.done()),
{
}

/// The next request is for what follows the bytes that have been asked for:
/// 16384 of them, or all that are left. Once it is sent they count as asked
/// for, and one more answer is awaited.
pub proof fn law_next_request_follows(download: PieceDownloadView)
    requires
        download.wf(),
        download.requested < download.buf.len(),
        download.backlog < 5,
        download.index <= u32::MAX,
    ensures
        ({
            let request = download.next_request();
            let after = download.after_request();
            let len = after.requested - download.requested;
            &&& request.id == opcode::REQUEST
            &&& request.payload.len() == 12
            &&& be32_value(request.payload) == download.index
            &&& be32_value(request.payload.skip(4)) == download.requested
            &&& be32_value(request.payload.skip(8)) == len
            &&& 0 < len <= 16384
            &&& after.requested <= download.buf.len()
            &&& len == 16384 || after.requested == download.buf.len()
            &&& after.backlog == download.backlog + 1
            &&& after.index == download.index
            &&& after.buf == download.buf
            &&& after.downloaded == download.downloaded
        }),
{
    let begin = be32(download.requested);
    let len = be32(download.next_len());
    let payload = download.next_request().payload;
    assert(payload =~= be32(download.index as u32) + (begin + len));
    lemma_be32_value(download.index as u32, begin + len);
    assert(payload.skip(4) =~= begin + len);
    lemma_be32_value(download.requested, len);
    assert(payload.skip(8) =~= len + seq![]);
    lemma_be32_value(download.next_len(), seq![]);
}

/// A block is refused if it is of another piece, begins behind the end, or ends
/// behind it, and then only. The error tells the first of these that holds.
pub proof fn law_misplaced_blocks_are_refused(
    download: PieceDownloadView,
    index: u32,
    begin: u32,
    data: Seq<u8>,
)
    ensures
        ({
            let refusal = download.refusal(block_message(index, begin, data).payload);
            let len = download.buf.len();
            &&& index != download.index ==> refusal == Some(
                PieceError::WrongIndex { index, expected: download.index },
            )
            &&& index == download.index && begin > len ==> refusal == Some(PieceError::BeginTooHigh)
            &&& index == download.index && begin <= len < begin + data.len() ==> refusal == Some(
                PieceError::DataTooLong {
                    data_len: data.len() as usize,
                    begin: begin as usize,
                    len: len as usize,
                },
            )
            &&& index == download.index && begin + data.len() <= len ==> refusal is None
        }),
{
    lemma_block_payload(index, begin, data);
}

proof fn lemma_block_payload(index: u32, begin: u32, data: Seq<u8>)
    ensures
        ({
            let payload = block_message(index, begin, data).payload;
            &&& payload.len() == 8 + data.len()
            &&& be32_value(payload) == index
            &&& be32_value(payload.skip(4)) == begin
            &&& payload.skip(8) == data
        }),
{
    let payload = block_message(index, begin, data).payload;
    assert(payload =~= be32(index) + (be32(begin) + data));
    lemma_be32_value(index, be32(begin) + data);
    assert(payload.skip(4) =~= be32(begin) + data);
    lemma_be32_value(begin, data);
    assert(payload.skip(8) =~= data);
}

/// A block that lies in the piece can be taken in: its bytes stand where they
/// belong, all other bytes stay, they count as come in, and one answer less is
/// awaited. What has been asked for stays.
pub proof fn law_block_takes_its_place(
    download: PieceDownloadView,
    begin: u32,
    data: Seq<u8>,
    i: int,
)
    requires
        download.index <= u32::MAX,
        begin + data.len() <= download.buf.len(),
        download.downloaded + data.len() <= u32::MAX,
        download.backlog > i32::MIN,
        0 <= i < download.buf.len(),
    ensures
        ({
            let message = block_message(download.index as u32, begin, data);
            let after = download.after_block(message.payload);
            &&& download.can_take(message)
            &&& after.buf.len() == download.buf.len()
            &&& begin <= i < begin + data.len() ==> after.buf[i] == data[i - begin]
            &&& !(begin <= i < begin + data.len()) ==> after.buf[i] == download.buf[i]
            &&& after.downloaded == download.downloaded + data.len()
            &&& after.backlog == download.backlog - 1
            &&& after.index == download.index
            &&& after.requested == download.requested
        }),
{
    lemma_block_payload(download.index as u32, begin, data);
}

/// A download can deal with every message but a block that is cut off within its
/// index or, if it is of this piece, within its offset, and one whose bytes or
/// answers cannot be counted any more.
pub proof fn law_messages_can_be_dealt_with(download: PieceDownloadView, message: MessageView)
    ensures
        message.id != opcode::PIECE ==> download.can_take(message),
        message.payload.len() >= 8 && download.downloaded + message.payload.len() - 8 <= u32::MAX
            && download.backlog > i32::MIN ==> download.can_take(message),
        message.id == opcode::PIECE && message.payload.len() < 4 ==> !download.can_take(message),
        message.payload.len() >= 4 && be32_value(message.payload) != download.index
            ==> download.can_take(message),
{
}

/// What errors say, with the numbers that they are about.
pub proof fn law_errors_say_what_is_wrong(index: u32, expected: usize, begin: usize, len: usize)
    ensures
        (PieceError::WrongIndex { index, expected }).text() == "Expected index "@ + decimal(
            index as int,
        ) + ", got "@ + decimal(expected as int),
        PieceError::BeginTooHigh.text() == "Begin offset to high"@,
        (PieceError::DataTooLong { data_len: expected, begin, len }).text() == "Data to long ("@
            + decimal(expected as int) + ") for offset "@ + decimal(begin as int) + " with len "@
            + decimal(len as int),
{
}

/// The model of a download has all that the download has.
pub proof fn law_progress_is_modelled(download: PieceDownload)
    ensures
        download@.index == download.index,
        download@.buf == download.buf@,
        download@.downloaded == download.downloaded,
        download@.backlog == download.backlog,
        download@.requested == download.requested,
{
}

/// While a piece is downloaded, every message is listened for that brings a block
/// or changes whether the peer chokes, and besides those only what tells of
/// pieces that the peer gets.
pub proof fn law_download_hears_what_matters(peer: PeerView, message: MessageView)
    ensures
        message.id == opcode::PIECE ==> heard_in_download().contains(message.id),
        peer.after(message).choked != peer.choked ==> heard_in_download().contains(message.id),
        heard_in_download().contains(opcode::HAVE),
        heard_in_download().contains(message.id) ==> {
            ||| message.id == opcode::PIECE
            ||| message.id == opcode::HAVE
            ||| exists|before: PeerView| (#[trigger] before.after(message)).choked != before.choked
        },
{
    let kinds = heard_in_download();
    assert(kinds[0] == opcode::PIECE);
    assert(kinds[1] == opcode::CHOKE);
    assert(kinds[2] == opcode::UNCHOKE);
    assert(kinds[3] == opcode::HAVE);
    if message.id == opcode::CHOKE {
        let before = PeerView { choked: false, ..peer };
        assert(before.after(message).choked != before.choked);
    }
    if message.id == opcode::UNCHOKE {
        let before = PeerView { choked: true, ..peer };
        assert(before.after(message).choked != before.choked);
    }
}

} // verus!
