//! Seeding: answering a peer's requests for pieces and for metadata.
use vstd::prelude::*;

use crate::bits::{
    bits_of, bits_to_bytes, byte_bits, law_packed_bits_unpack, lemma_packed, packed,
};
use crate::bytes::{be32, be32_value, copy_range, lemma_be32_value, push_be32, push_bytes};
use crate::chunks::{chunk, lemma_chunk_step};
use crate::codec::deserialize_three_be32;
use crate::download::{block_message, request_message};
use crate::extension::{ExtMsg, HANDSHAKE_MESSAGE_ID, METADATA_DATA, METADATA_REQUEST};
use crate::message::{Message, MessageView};
use crate::metadata::{metadata_answer, metadata_head, metadata_request, METADATA_PIECE_LEN};
use crate::metainfo::InfoView;
use crate::opcode;
use crate::torrent::Torrent;
use crate::worker::bare;

verus! {

/// A request for part of a piece.
#[derive(Debug, Clone, Copy, PartialEq, Eq, Structural)]
pub struct PieceRequest {
    /// Which piece.
    pub index: u32,
    /// Where in the piece.
    pub requested: u32,
    /// How many bytes.
    pub len: u32,
}

/// Where a seeder stands.
#[derive(Debug)]
pub enum SeederStage {
    /// It has done nothing yet.
    Fresh,
    /// It tells the peer which pieces it has.
    Telling,
    /// It sends an answer, or tells the peer that it accepts requests.
    Answering,
    /// It awaits a request.
    Listening,
    /// A message of the extension protocol is decoded; this is all of it.
    Decoding(Vec<u8>),
    /// Part of a piece is read.
    Reading(PieceRequest),
    /// It does nothing more.
    Ended,
}

/// Answers a peer's requests.
#[derive(Debug)]
pub struct Seeder {
    /// The length of every piece but the last.
    pub piece_len: i64,
    /// The description of the torrent in bencode.
    pub metadata: Vec<u8>,
    /// The pieces that this side has, as bytes.
    pub bitfield: Vec<u8>,
    /// Where it stands.
    pub stage: SeederStage,
}

/// What has come of a seeder's last action.
#[derive(Debug)]
pub enum SeederEvent {
    /// It has been performed.
    Ready,
    /// A message came in.
    Heard(Message),
    /// A message of the extension protocol was decoded.
    Decoded(ExtMsg),
    /// These bytes were read from the file.
    Read(Vec<u8>),
}

/// What a seeder does next.
#[derive(Debug)]
pub enum SeederAction {
    /// It sends a message.
    Send(Message),
    /// It awaits a request.
    Listen,
    /// It decodes a message of the extension protocol from these bytes.
    Decode(Vec<u8>),
    /// It reads part of the file.
    Read { begin: u32, len: u32 },
    /// It ends, for a request was not of the right length.
    Fail,
}

/// `SeederStage` with its contents as sequences.
#[verifier::ext_equal]
pub enum SeederStageView {
    Fresh,
    Telling,
    Answering,
    Listening,
    Decoding(Seq<u8>),
    Reading(PieceRequest),
    Ended,
}

/// `Seeder` with its contents as sequences.
#[verifier::ext_equal]
pub struct SeederView {
    pub piece_len: i64,
    pub metadata: Seq<u8>,
    pub bitfield: Seq<u8>,
    pub stage: SeederStageView,
}

/// An event with its contents as sequences.
#[verifier::ext_equal]
pub enum SeederEventView {
    Ready,
    Heard(MessageView),
    Decoded(ExtMsg),
    Read(Seq<u8>),
}

/// An action with its contents as sequences.
#[verifier::ext_equal]
pub enum SeederActionView {
    Send(MessageView),
    Listen,
    Decode(Seq<u8>),
    Read { begin: u32, len: u32 },
    Fail,
}

impl View for SeederStage {
    type V = SeederStageView;

    open spec fn view(&self) -> SeederStageView {
        match *self {
            SeederStage::Fresh => SeederStageView::Fresh,
            SeederStage::Telling => SeederStageView::Telling,
            SeederStage::Answering => SeederStageView::Answering,
            SeederStage::Listening => SeederStageView::Listening,
            SeederStage::Decoding(payload) => SeederStageView::Decoding(payload@),
            SeederStage::Reading(request) => SeederStageView::Reading(request),
            SeederStage::Ended => SeederStageView::Ended,
        }
    }
}

impl View for Seeder {
    type V = SeederView;

    open spec fn view(&self) -> SeederView {
        SeederView {
            piece_len: self.piece_len,
            metadata: self.metadata@,
            bitfield: self.bitfield@,
            stage: self.stage@,
        }
    }
}

impl View for SeederEvent {
    type V = SeederEventView;

    open spec fn view(&self) -> SeederEventView {
        match *self {
            SeederEvent::Ready => SeederEventView::Ready,
            SeederEvent::Heard(message) => SeederEventView::Heard(message@),
            SeederEvent::Decoded(message) => SeederEventView::Decoded(message),
            SeederEvent::Read(data) => SeederEventView::Read(data@),
        }
    }
}

impl View for SeederAction {
    type V = SeederActionView;

    open spec fn view(&self) -> SeederActionView {
        match *self {
            SeederAction::Send(message) => SeederActionView::Send(message@),
            SeederAction::Listen => SeederActionView::Listen,
            SeederAction::Decode(bytes) => SeederActionView::Decode(bytes@),
            SeederAction::Read { begin, len } => SeederActionView::Read { begin, len },
            SeederAction::Fail => SeederActionView::Fail,
        }
    }
}

/// The kinds of message that a seeder listens for.
pub open spec fn heard_by_seeder() -> Seq<u8> {
    seq![opcode::REQUEST, opcode::EXTENDED]
}

/// The kinds of message that a seeder listens for.
pub fn seeder_kinds() -> (kinds: [u8; 2])
    ensures
        kinds@ == heard_by_seeder(),
        kinds@ == seq![opcode::REQUEST, opcode::EXTENDED],
{
    [opcode::REQUEST, opcode::EXTENDED]
}

/// The request that a payload spells: three integers and nothing more.
pub open spec fn request_of(payload: Seq<u8>) -> Option<PieceRequest> {
    if payload.len() == 12 {
        Some(
            PieceRequest {
                index: be32_value(payload),
                requested: be32_value(payload.skip(4)),
                len: be32_value(payload.skip(8)),
            },
        )
    } else {
        None
    }
}

impl SeederView {
    /// The seeder of a torrent before anything has been done.
    pub open spec fn start(info: InfoView, bits: Seq<bool>) -> SeederView {
        SeederView {
            piece_len: info.piece_len,
            metadata: info.encoded(),
            bitfield: packed(bits),
            stage: SeederStageView::Fresh,
        }
    }

    /// Where in the file a request begins.
    pub open spec fn offset(self, request: PieceRequest) -> int {
        request.index * self.piece_len as u32 + request.requested
    }

    /// Whether a request, if the payload spells one, lies within 32 bits.
    pub open spec fn can_serve(self, payload: Seq<u8>) -> bool {
        request_of(payload) matches Some(request) ==> self.offset(request) <= u32::MAX
    }

    /// Whether there is metadata where a piece of it begins, or it ends there.
    pub open spec fn has_metadata(self, piece: i32) -> bool {
        0 <= piece * METADATA_PIECE_LEN <= self.metadata.len()
    }

    /// Whether an event can follow the last action.
    pub open spec fn expects(self, event: SeederEventView) -> bool {
        match (self.stage, event) {
            (SeederStageView::Listening, SeederEventView::Heard(message)) => if message.id
                == opcode::EXTENDED {
                message.payload.len() > 0
            } else {
                self.can_serve(message.payload)
            },
            (SeederStageView::Decoding(payload), SeederEventView::Decoded(message)) => {
                if message.msg_type == METADATA_REQUEST {
                    self.has_metadata(message.piece)
                } else {
                    self.can_serve(payload)
                }
            },
            (SeederStageView::Reading(request), SeederEventView::Read(data)) => {
                data.len() == request.len
            },
            (SeederStageView::Fresh, SeederEventView::Ready) => true,
            (SeederStageView::Telling, SeederEventView::Ready) => true,
            (SeederStageView::Answering, SeederEventView::Ready) => true,
            _ => false,
        }
    }

    /// How a request is dealt with: the part of the file that it asks for is
    /// read, unless it is not of the right length.
    pub open spec fn serve(self, payload: Seq<u8>) -> (SeederStageView, SeederActionView) {
        match request_of(payload) {
            Some(request) => (
                SeederStageView::Reading(request),
                SeederActionView::Read { begin: self.offset(request) as u32, len: request.len },
            ),
            None => (SeederStageView::Ended, SeederActionView::Fail),
        }
    }

    /// Where the seeder stands after an event, and what it does next.
    pub open spec fn step(self, event: SeederEventView) -> (SeederStageView, SeederActionView) {
        match (self.stage, event) {
            (SeederStageView::Fresh, _) => (
                SeederStageView::Telling,
                SeederActionView::Send(
                    MessageView { id: opcode::BITFIELD, payload: self.bitfield },
                ),
            ),
            (SeederStageView::Telling, _) => (
                SeederStageView::Answering,
                SeederActionView::Send(bare(opcode::UNCHOKE)),
            ),
            (SeederStageView::Listening, SeederEventView::Heard(message)) => if message.id
                == opcode::EXTENDED {
                (
                    SeederStageView::Decoding(message.payload),
                    SeederActionView::Decode(message.payload.skip(1)),
                )
            } else {
                self.serve(message.payload)
            },
            (SeederStageView::Decoding(payload), SeederEventView::Decoded(message)) => {
                if message.msg_type == METADATA_REQUEST {
                    (
                        SeederStageView::Answering,
                        SeederActionView::Send(metadata_answer(self.metadata, message.piece)),
                    )
                } else {
                    self.serve(payload)
                }
            },
            (SeederStageView::Reading(request), SeederEventView::Read(data)) => (
                SeederStageView::Answering,
                SeederActionView::Send(block_message(request.index, request.requested, data)),
            ),
            _ => (SeederStageView::Listening, SeederActionView::Listen),
        }
    }
}

impl Seeder {
    /// Whether a request, if the payload spells one, lies within 32 bits.
    fn can_serve(&self, payload: &Vec<u8>) -> (can: bool)
        ensures
            can == self@.can_serve(payload@),
    {
        match deserialize_three_be32(payload.as_slice()) {
            Ok((index, requested, _)) => {
                #[verifier::truncate]
                let piece_len: u32 = self.piece_len as u32;
                match index.checked_mul(piece_len) {
                    Some(begin) => begin.checked_add(requested).is_some(),
                    None => {
                        assert(index * piece_len + requested >= index * piece_len);
                        false
                    },
                }
            },
            Err(_) => true,
        }
    }

    /// Deals with a request.
    fn serve(&mut self, payload: &Vec<u8>) -> (action: SeederAction)
        requires
            old(self)@.can_serve(payload@),
        ensures
            (final(self).stage@, action@) == old(self)@.serve(payload@),
            final(self).piece_len == old(self).piece_len,
            final(self).metadata == old(self).metadata,
            final(self).bitfield == old(self).bitfield,
    {
        match deserialize_three_be32(payload.as_slice()) {
            Ok((index, requested, len)) => {
                #[verifier::truncate]
                let piece_len: u32 = self.piece_len as u32;
                let request = PieceRequest { index, requested, len };
                assert(request_of(payload@) == Some(request));
                assert(0 <= index * piece_len) by (nonlinear_arith);
                self.stage = SeederStage::Reading(request);
                SeederAction::Read { begin: index * piece_len + requested, len }
            },
            Err(_) => {
                self.stage = SeederStage::Ended;
                SeederAction::Fail
            },
        }
    }

    /// The message that gives a peer a piece of metadata.
    fn metadata_message(&self, piece: i32) -> (message: Message)
        requires
            self@.has_metadata(piece),
        ensures
            message@ == metadata_answer(self.metadata@, piece),
    {
        let begin: usize = piece as usize * METADATA_PIECE_LEN;
        let len: usize = self.metadata.len();
        let end: usize = if len - begin > METADATA_PIECE_LEN {
            begin + METADATA_PIECE_LEN
        } else {
            len
        };
        #[verifier::truncate]
        let total_size: i32 = len as i32;
        let head = ExtMsg { msg_type: METADATA_DATA, piece, total_size: Some(total_size) };
        let mut payload: Vec<u8> = Vec::new();
        payload.push(HANDSHAKE_MESSAGE_ID);
        push_bytes(&mut payload, head.to_bytes().as_slice());
        push_bytes(
            &mut payload,
            vstd::slice::slice_subrange(self.metadata.as_slice(), begin, end),
        );
        let message = Message { id: opcode::EXTENDED, payload };
        proof {
            lemma_chunk_step(len as nat, METADATA_PIECE_LEN as nat, piece as nat);
            assert(self.metadata@.subrange(begin as int, end as int) =~= chunk(
                self.metadata@,
                METADATA_PIECE_LEN as nat,
                piece as nat,
            ));
            assert(head == metadata_head(self.metadata@, piece));
            assert(message@ =~= metadata_answer(self.metadata@, piece));
        }
        message
    }

    /// Whether an event can follow the last action.
    pub fn expects(&self, event: &SeederEvent) -> (expected: bool)
        ensures
            expected == self@.expects(event@),
    {
        match (&self.stage, event) {
            (SeederStage::Listening, SeederEvent::Heard(message)) => {
                if message.id == opcode::EXTENDED {
                    message.payload.len() > 0
                } else {
                    self.can_serve(&message.payload)
                }
            },
            (SeederStage::Decoding(payload), SeederEvent::Decoded(message)) => {
                if message.msg_type == METADATA_REQUEST {
                    message.piece >= 0 && message.piece as usize <= self.metadata.len()
                        / METADATA_PIECE_LEN
                } else {
                    self.can_serve(payload)
                }
            },
            (SeederStage::Reading(request), SeederEvent::Read(data)) => {
                data.len() == request.len as usize
            },
            (SeederStage::Fresh, SeederEvent::Ready) => true,
            (SeederStage::Telling, SeederEvent::Ready) => true,
            (SeederStage::Answering, SeederEvent::Ready) => true,
            _ => false,
        }
    }

    /// Decides, after an event, what the seeder does next.
    pub fn step(&mut self, event: SeederEvent) -> (action: SeederAction)
        requires
            old(self)@.expects(event@),
        ensures
            (final(self).stage@, action@) == old(self)@.step(event@),
            final(self).piece_len == old(self).piece_len,
            final(self).metadata == old(self).metadata,
            final(self).bitfield == old(self).bitfield,
    {
        let mut stage = SeederStage::Ended;
        std::mem::swap(&mut stage, &mut self.stage);
        match (stage, event) {
            (SeederStage::Fresh, _) => {
                self.stage = SeederStage::Telling;
                let payload = copy_range(self.bitfield.as_slice(), 0, self.bitfield.len());
                let message = Message { id: opcode::BITFIELD, payload };
                assert(message@ =~= MessageView {
                    id: opcode::BITFIELD,
                    payload: self.bitfield@,
                });
                SeederAction::Send(message)
            },
            (SeederStage::Telling, _) => {
                self.stage = SeederStage::Answering;
                let message = Message::new(opcode::UNCHOKE, None);
                assert(message@ =~= bare(opcode::UNCHOKE));
                SeederAction::Send(message)
            },
            (SeederStage::Listening, SeederEvent::Heard(message)) => {
                if message.id == opcode::EXTENDED {
                    let head = copy_range(message.payload.as_slice(), 1, message.payload.len());
                    assert(head@ =~= message.payload@.skip(1));
                    self.stage = SeederStage::Decoding(message.payload);
                    SeederAction::Decode(head)
                } else {
                    self.serve(&message.payload)
                }
            },
            (SeederStage::Decoding(payload), SeederEvent::Decoded(message)) => {
                if message.msg_type == METADATA_REQUEST {
                    self.stage = SeederStage::Answering;
                    SeederAction::Send(self.metadata_message(message.piece))
                } else {
                    self.serve(&payload)
                }
            },
            (SeederStage::Reading(request), SeederEvent::Read(data)) => {
                self.stage = SeederStage::Answering;
                let mut payload: Vec<u8> = Vec::new();
                push_be32(&mut payload, request.index);
                push_be32(&mut payload, request.requested);
                push_bytes(&mut payload, data.as_slice());
                let message = Message { id: opcode::PIECE, payload };
                assert(message@ =~= block_message(request.index, request.requested, data@));
                SeederAction::Send(message)
            },
            _ => {
                self.stage = SeederStage::Listening;
                SeederAction::Listen
            },
        }
    }
}

impl Torrent {
    /// Starts to seed to a peer.
    pub fn seed_pieces(&self) -> (seeder: Seeder)
        requires
            self.metadata is Some,
        ensures
            seeder@ == SeederView::start(self.metadata->0@, bits_of(self.bitfield)),
            seeder.piece_len == self.metadata->0.piece_len,
            seeder.metadata@ == self.metadata->0@.encoded(),
    {
        let info = self.metadata.as_ref().unwrap();
        let bitfield = bits_to_bytes(&self.bitfield);
        proof {
            lemma_packed(bitfield@, bits_of(self.bitfield));
        }
        Seeder {
            piece_len: info.piece_len,
            metadata: info.to_bytes(),
            bitfield,
            stage: SeederStage::Fresh,
        }
    }
}

/// A seeder begins with what the torrent says: the length of its pieces, its
/// description, and the pieces that are there. It tells the peer of those
/// pieces, then that it accepts requests, and then it listens.
pub proof fn law_seeder_begins(info: InfoView, bits: Seq<bool>)
    ensures
        ({
            let seeder = SeederView::start(info, bits);
            let telling = seeder.step(SeederEventView::Ready);
            let answering = (SeederView { stage: telling.0, ..seeder }).step(
                SeederEventView::Ready,
            );
            let listening = (SeederView { stage: answering.0, ..seeder }).step(
                SeederEventView::Ready,
            );
            &&& seeder.piece_len == info.piece_len
            &&& seeder.metadata == info.encoded()
            &&& seeder.expects(SeederEventView::Ready)
            &&& telling.1 == SeederActionView::Send(
                MessageView { id: opcode::BITFIELD, payload: seeder.bitfield },
            )
            &&& byte_bits(seeder.bitfield).take(bits.len() as int) == bits
            &&& 8 * seeder.bitfield.len() < bits.len() + 8
            &&& (SeederView { stage: telling.0, ..seeder }).expects(SeederEventView::Ready)
            &&& answering.1 == SeederActionView::Send(
                MessageView { id: opcode::UNCHOKE, payload: seq![] },
            )
            &&& (SeederView { stage: answering.0, ..seeder }).expects(SeederEventView::Ready)
            &&& listening == (SeederStageView::Listening, SeederActionView::Listen)
        }),
{
    law_packed_bits_unpack(bits);
    assert(byte_bits(packed(bits)).take(bits.len() as int) =~= bits);
}

/// A listening seeder of a torrent that is asked for part of a piece reads the
/// file there: where the piece begins, by the length that the torrent says its
/// pieces have, and on from there. It answers with just what was read, under
/// the place that was asked for, and listens again. Places beyond 32 bits are
/// left out: no request for one can be served.
pub proof fn law_seeder_reads_where_asked(
    info: InfoView,
    bits: Seq<bool>,
    request: PieceRequest,
    data: Seq<u8>,
)
    requires
        info.piece_len >= 0,
        request.index > 0 ==> info.piece_len <= u32::MAX,
        request.index * info.piece_len + request.requested <= u32::MAX,
        data.len() == request.len,
    ensures
        ({
            let seeder = SeederView {
                stage: SeederStageView::Listening,
                ..SeederView::start(info, bits)
            };
            let heard = SeederEventView::Heard(
                MessageView {
                    id: opcode::REQUEST,
                    payload: be32(request.index) + be32(request.requested) + be32(request.len),
                },
            );
            let (stage, action) = seeder.step(heard);
            let reading = SeederView { stage, ..seeder };
            let (answering, answer) = reading.step(SeederEventView::Read(data));
            &&& seeder.expects(heard)
            &&& action matches SeederActionView::Read { begin, len }
            &&& begin == request.index * info.piece_len + request.requested
            &&& len == request.len
            &&& reading.expects(SeederEventView::Read(data))
            &&& answer == SeederActionView::Send(
                MessageView {
                    id: opcode::PIECE,
                    payload: be32(request.index) + be32(request.requested) + data,
                },
            )
            &&& (SeederView { stage: answering, ..seeder }).expects(SeederEventView::Ready)
            &&& (SeederView { stage: answering, ..seeder }).step(SeederEventView::Ready) == (
                SeederStageView::Listening,
                SeederActionView::Listen,
            )
        }),
{
    let index = be32(request.index);
    let requested = be32(request.requested);
    let len = be32(request.len);
    let payload = index + requested + len;
    assert(payload =~= index + (requested + len));
    lemma_be32_value(request.index, requested + len);
    assert(payload.skip(4) =~= requested + len);
    lemma_be32_value(request.requested, len);
    assert(payload.skip(8) =~= len + seq![]);
    lemma_be32_value(request.len, seq![]);
    assert(request_of(payload) == Some(request));
    if request.index == 0 {
        assert(0 * info.piece_len == 0 && 0 * (info.piece_len as u32) == 0) by (nonlinear_arith);
    }
}

/// A listening seeder that hears a request which is not twelve bytes long ends,
/// and no other request makes it end. Whatever it hears is taken for a request,
/// unless it is of the extension protocol.
pub proof fn law_only_cut_requests_end_it(seeder: SeederView, message: MessageView)
    requires
        seeder.stage == SeederStageView::Listening,
        message.id != opcode::EXTENDED,
    ensures
        ({
            let (stage, action) = seeder.step(SeederEventView::Heard(message));
            &&& message.payload.len() != 12 ==> {
                &&& seeder.expects(SeederEventView::Heard(message))
                &&& stage == SeederStageView::Ended
                &&& action == SeederActionView::Fail
            }
            &&& message.payload.len() == 12 ==> {
                &&& !(stage is Ended)
                &&& action is Read
            }
        }),
        ({
            let request = MessageView { id: opcode::REQUEST, ..message };
            &&& seeder.step(SeederEventView::Heard(message)) == seeder.step(
                SeederEventView::Heard(request),
            )
            &&& seeder.expects(SeederEventView::Heard(message)) <==> seeder.expects(
                SeederEventView::Heard(request),
            )
        }),
{
}

/// A listening seeder has a message of the extension protocol decoded but for its
/// first byte. If it is a request for metadata, the seeder answers with what
/// stands there: up to 16384 bytes, after a head that says which piece it is and
/// how long the metadata is. Then it listens again. Metadata whose length is no
/// 32-bit integer is left out.
pub proof fn law_seeder_gives_metadata(
    seeder: SeederView,
    payload: Seq<u8>,
    piece: i32,
    total_size: Option<i32>,
)
    requires
        seeder.stage == SeederStageView::Listening,
        payload.len() > 0,
        piece >= 0,
        piece * 16384 <= seeder.metadata.len() <= i32::MAX,
    ensures
        ({
            let heard = SeederEventView::Heard(MessageView { id: opcode::EXTENDED, payload });
            let (stage, action) = seeder.step(heard);
            let decoding = SeederView { stage, ..seeder };
            let decoded = SeederEventView::Decoded(ExtMsg { msg_type: 0, piece, total_size });
            let (answering, answer) = decoding.step(decoded);
            let begin = piece * 16384;
            let end = if begin + 16384 < seeder.metadata.len() {
                begin + 16384
            } else {
                seeder.metadata.len() as int
            };
            &&& seeder.expects(heard)
            &&& action == SeederActionView::Decode(payload.skip(1))
            &&& decoding.expects(decoded)
            &&& answer == SeederActionView::Send(
                MessageView {
                    id: opcode::EXTENDED,
                    payload: seq![0u8] + (ExtMsg {
                        msg_type: 1,
                        piece,
                        total_size: Some(seeder.metadata.len() as i32),
                    }).encoded() + seeder.metadata.subrange(begin, end),
                },
            )
            &&& (SeederView { stage: answering, ..seeder }).expects(SeederEventView::Ready)
            &&& (SeederView { stage: answering, ..seeder }).step(SeederEventView::Ready) == (
                SeederStageView::Listening,
                SeederActionView::Listen,
            )
        }),
{
    let begin = piece * 16384;
    let end = if begin + 16384 < seeder.metadata.len() {
        begin + 16384
    } else {
        seeder.metadata.len() as int
    };
    lemma_chunk_step(seeder.metadata.len(), 16384, piece as nat);
    assert(chunk(seeder.metadata, 16384, piece as nat) =~= seeder.metadata.subrange(begin, end));
}

/// A message of the extension protocol that is no request for metadata is dealt
/// with as a request for part of a piece.
pub proof fn law_other_extension_messages(seeder: SeederView, payload: Seq<u8>, message: ExtMsg)
    requires
        seeder.stage == SeederStageView::Decoding(payload),
        message.msg_type != 0,
    ensures
        ({
            let listening = SeederView { stage: SeederStageView::Listening, ..seeder };
            let heard = SeederEventView::Heard(MessageView { id: opcode::REQUEST, payload });
            &&& seeder.step(SeederEventView::Decoded(message)) == listening.step(heard)
            &&& seeder.expects(SeederEventView::Decoded(message)) <==> listening.expects(heard)
        }),
{
}

/// The models of a seeder, of events and of actions have all that these have.
pub proof fn law_seeder_is_modelled(seeder: Seeder, event: SeederEvent, action: SeederAction)
    ensures
        seeder@.piece_len == seeder.piece_len,
        seeder@.metadata == seeder.metadata@,
        seeder@.bitfield == seeder.bitfield@,
        seeder@.stage is Fresh <==> seeder.stage is Fresh,
        seeder@.stage is Telling <==> seeder.stage is Telling,
        seeder@.stage is Answering <==> seeder.stage is Answering,
        seeder@.stage is Listening <==> seeder.stage is Listening,
        seeder.stage matches SeederStage::Decoding(payload) ==> seeder@.stage
            == SeederStageView::Decoding(payload@),
        seeder.stage matches SeederStage::Reading(request) ==> seeder@.stage
            == SeederStageView::Reading(request),
        seeder@.stage is Ended <==> seeder.stage is Ended,
        event@ is Ready <==> event is Ready,
        event matches SeederEvent::Heard(message) ==> event@ == SeederEventView::Heard(message@),
        event matches SeederEvent::Decoded(message) ==> event@ == SeederEventView::Decoded(message),
        event matches SeederEvent::Read(data) ==> event@ == SeederEventView::Read(data@),
        action matches SeederAction::Send(message) ==> action@ == SeederActionView::Send(message@),
        action@ is Listen <==> action is Listen,
        action matches SeederAction::Decode(bytes) ==> action@ == SeederActionView::Decode(bytes@),
        action matches SeederAction::Read { begin, len } ==> action@ == (SeederActionView::Read {
            begin,
            len,
        }),
        action@ is Fail <==> action is Fail,
{
}

/// A seeder listens for requests, whether for pieces or for metadata, and for
/// nothing else.
pub proof fn law_seeder_hears_requests(
    index: u32,
    begin: u32,
    len: u32,
    message_id: u8,
    piece: i32,
    id: u8,
)
    ensures
        heard_by_seeder().contains(id) <==> {
            ||| id == request_message(index, begin, len).id
            ||| id == metadata_request(message_id, piece).id
        },
{
    assert(heard_by_seeder()[0] == opcode::REQUEST);
    assert(heard_by_seeder()[1] == opcode::EXTENDED);
}

} // verus!
