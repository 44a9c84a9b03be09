//! The handshake that opens a connection.
use vstd::prelude::*;

use crate::bencode::ascii;
use crate::bytes::{copy_range, push_bytes, same_bytes};
use crate::codec::{deserialize_greeting, greeting_bytes, serialize_greeting, GREETING_LEN};
use crate::extension::{
    int_field, law_extensions_on_the_wire, option_u32, ExtHandshake, HANDSHAKE_MESSAGE_ID,
};
use crate::message::{Message, MessageView};
use crate::opcode;
use crate::peer::{PeerState, PeerView};
use crate::torrent::Torrent;

verus! {

/// The greeting with which each side opens a connection.
#[derive(Debug, Clone, Copy, PartialEq, Eq)]
pub struct Handshake {
    /// The length of the protocol's name.
    pub len: u8,
    /// The protocol's name.
    pub protocol: [u8; 19],
    /// Bits for extensions of the protocol.
    pub reserved: [u8; 8],
    /// The torrent that the connection is about.
    pub info_hash: [u8; 20],
    /// Who opens the connection.
    pub peer_id: [u8; 20],
}

/// The greeting of a client that supports the extension protocol.
pub open spec fn own_greeting(info_hash: Seq<u8>, peer_id: Seq<u8>) -> Seq<u8> {
    greeting_bytes(
        19,
        ascii("BitTorrent protocol"@),
        seq![0u8, 0, 0, 0, 0, 0x10, 0, 0],
        info_hash,
        peer_id,
    )
}

/// The info hash in a greeting.
pub open spec fn greeted_hash(greeting: Seq<u8>) -> Seq<u8> {
    greeting.subrange(28, 48)
}

impl Handshake {
    /// The greeting on the wire.
    pub open spec fn bytes(self) -> Seq<u8> {
        greeting_bytes(
            self.len,
            self.protocol@,
            self.reserved@,
            self.info_hash@,
            self.peer_id@,
        )
    }

    /// The greeting of a client that supports the extension protocol.
    pub fn new(info_hash: [u8; 20], peer_id: [u8; 20]) -> (greeting: Handshake)
        ensures
            greeting.bytes() == own_greeting(info_hash@, peer_id@),
            greeting.info_hash == info_hash,
            greeting.peer_id == peer_id,
    {
        let greeting = Handshake {
            len: 19,
            protocol: [
                0x42,
                0x69,
                0x74,
                0x54,
                0x6f,
                0x72,
                0x72,
                0x65,
                0x6e,
                0x74,
                0x20,
                0x70,
                0x72,
                0x6f,
                0x74,
                0x6f,
                0x63,
                0x6f,
                0x6c,
            ],
            reserved: [0, 0, 0, 0, 0, 0x10, 0, 0],
            info_hash,
            peer_id,
        };
        proof {
            reveal_strlit("BitTorrent protocol");
            assert(greeting.protocol@ =~= ascii("BitTorrent protocol"@));
            assert(greeting.reserved@ =~= seq![0u8, 0, 0, 0, 0, 0x10, 0, 0]);
        }
        greeting
    }

    /// The greeting on the wire.
    pub fn serialize(&self) -> (bytes: Vec<u8>)
        ensures
            bytes@ == self.bytes(),
    {
        serialize_greeting(
            self.len,
            self.protocol,
            self.reserved,
            self.info_hash,
            self.peer_id,
        ).unwrap()
    }

    /// The greeting with which `bytes` start, if they are long enough for one.
    pub fn deserialize(bytes: &[u8]) -> (greeting: Option<Handshake>)
        ensures
            greeting is Some <==> bytes@.len() >= GREETING_LEN,
            greeting matches Some(greeting) ==> greeting.bytes() == bytes@.take(
                GREETING_LEN as int,
            ),
    {
        match deserialize_greeting(bytes) {
            Ok((len, protocol, reserved, info_hash, peer_id)) => Some(
                Handshake { len, protocol, reserved, info_hash, peer_id },
            ),
            Err(_) => None,
        }
    }
}

/// A greeting on the wire holds its info hash and nothing is lost of it: two
/// greetings with the same bytes are equal field by field.
pub proof fn law_greeting_bytes_determine_fields(a: Handshake, b: Handshake)
    requires
        a.bytes() == b.bytes(),
    ensures
        a.bytes().len() == GREETING_LEN,
        greeted_hash(a.bytes()) == a.info_hash@,
        a.len == b.len,
        a.protocol@ == b.protocol@,
        a.reserved@ == b.reserved@,
        a.info_hash@ == b.info_hash@,
        a.peer_id@ == b.peer_id@,
{
    let s = a.bytes();
    assert(s[0] == a.len);
    assert(s.subrange(1, 20) =~= a.protocol@);
    assert(s.subrange(20, 28) =~= a.reserved@);
    assert(s.subrange(28, 48) =~= a.info_hash@);
    assert(s.subrange(48, 68) =~= a.peer_id@);
    assert(s[0] == b.len);
    assert(s.subrange(1, 20) =~= b.protocol@);
    assert(s.subrange(20, 28) =~= b.reserved@);
    assert(s.subrange(28, 48) =~= b.info_hash@);
    assert(s.subrange(48, 68) =~= b.peer_id@);
}

/// How far a handshake has come.
#[derive(Debug)]
pub enum Greeter {
    /// Nothing has been done.
    Fresh,
    /// The own greeting is sent.
    Greeting,
    /// The peer's greeting is awaited.
    Awaiting,
    /// The own extensions are offered.
    Offering,
    /// The peer's extensions are awaited.
    Listening,
    /// The peer's extensions are decoded.
    Decoding,
    /// Nothing more is done.
    Ended,
}

/// A handshake with a peer.
#[derive(Debug)]
pub struct Handshaking {
    /// The torrent that the connection is about.
    pub info_hash: [u8; 20],
    /// Who opens the connection.
    pub peer_id: [u8; 20],
    /// What the peer is told of the size of the metadata.
    pub metadata_size: Option<u32>,
    /// How far it has come.
    pub stage: Greeter,
}

/// What has come of a handshake's last action.
#[derive(Debug)]
pub enum HandshakeEvent {
    /// It has been performed.
    Ready,
    /// These bytes were read.
    Read(Vec<u8>),
    /// A message came in.
    Heard(Message),
    /// The peer's extensions were decoded.
    Decoded(ExtHandshake),
}

/// What a handshake does next.
#[derive(Debug)]
pub enum HandshakeAction {
    /// Bytes are sent.
    SendBytes(Vec<u8>),
    /// This many bytes are read.
    Read(usize),
    /// A message is sent.
    Send(Message),
    /// A message of the extension protocol is awaited.
    Listen,
    /// The peer's extensions are decoded from these bytes.
    Decode(Vec<u8>),
    /// The handshake is complete, and this is what the peer supports.
    Accept(ExtHandshake),
    /// The handshake fails.
    Fail(HandshakeError),
}

/// Why a handshake fails.
#[derive(Debug, Clone, Copy, PartialEq, Eq, Structural)]
pub enum HandshakeError {
    /// The peer did not answer with its extensions.
    WrongId,
}

impl HandshakeError {
    /// What the error says.
    pub fn message(&self) -> (text: String)
        ensures
            text@ == "wrong id"@,
    {
        "wrong id".to_owned()
    }
}

/// An event with its contents as sequences.
#[verifier::ext_equal]
pub enum HandshakeEventView {
    Ready,
    Read(Seq<u8>),
    Heard(MessageView),
    Decoded(ExtHandshake),
}

/// An action with its contents as sequences.
#[verifier::ext_equal]
pub enum HandshakeActionView {
    SendBytes(Seq<u8>),
    Read(usize),
    Send(MessageView),
    Listen,
    Decode(Seq<u8>),
    Accept(ExtHandshake),
    Fail(HandshakeError),
}

impl View for HandshakeEvent {
    type V = HandshakeEventView;

    open spec fn view(&self) -> HandshakeEventView {
        match *self {
            HandshakeEvent::Ready => HandshakeEventView::Ready,
            HandshakeEvent::Read(bytes) => HandshakeEventView::Read(bytes@),
            HandshakeEvent::Heard(message) => HandshakeEventView::Heard(message@),
            HandshakeEvent::Decoded(extensions) => HandshakeEventView::Decoded(extensions),
        }
    }
}

impl View for HandshakeAction {
    type V = HandshakeActionView;

    open spec fn view(&self) -> HandshakeActionView {
        match *self {
            HandshakeAction::SendBytes(bytes) => HandshakeActionView::SendBytes(bytes@),
            HandshakeAction::Read(count) => HandshakeActionView::Read(count),
            HandshakeAction::Send(message) => HandshakeActionView::Send(message@),
            HandshakeAction::Listen => HandshakeActionView::Listen,
            HandshakeAction::Decode(bytes) => HandshakeActionView::Decode(bytes@),
            HandshakeAction::Accept(extensions) => HandshakeActionView::Accept(extensions),
            HandshakeAction::Fail(error) => HandshakeActionView::Fail(error),
        }
    }
}

/// The message that offers extensions to a peer.
pub open spec fn offer_message(metadata_size: Option<u32>) -> MessageView {
    MessageView {
        id: opcode::EXTENDED,
        payload: seq![HANDSHAKE_MESSAGE_ID] + ExtHandshake::offered(metadata_size).encoded(),
    }
}

impl Handshaking {
    /// Whether an event can follow the last action. The peer's greeting is about
    /// the same torrent, its answer has a number, and its extensions include
    /// the exchange of metadata.
    pub open spec fn can_take(self, event: HandshakeEventView) -> bool {
        match (self.stage, event) {
            (Greeter::Awaiting, HandshakeEventView::Read(bytes)) => {
                &&& bytes.len() == GREETING_LEN
                &&& greeted_hash(bytes) == self.info_hash@
            },
            (Greeter::Listening, HandshakeEventView::Heard(message)) => message.payload.len() > 0,
            (Greeter::Decoding, HandshakeEventView::Decoded(extensions)) => {
                extensions.ut_metadata is Some
            },
            (Greeter::Fresh, HandshakeEventView::Ready) => true,
            (Greeter::Greeting, HandshakeEventView::Ready) => true,
            (Greeter::Offering, HandshakeEventView::Ready) => true,
            _ => false,
        }
    }

    /// How far the handshake has come after an event.
    pub open spec fn next_stage(self, event: HandshakeEventView) -> Greeter {
        match (self.stage, event) {
            (Greeter::Fresh, _) => Greeter::Greeting,
            (Greeter::Greeting, _) => Greeter::Awaiting,
            (Greeter::Awaiting, _) => Greeter::Offering,
            (Greeter::Offering, _) => Greeter::Listening,
            (Greeter::Listening, HandshakeEventView::Heard(message)) => if message.payload[0]
                == HANDSHAKE_MESSAGE_ID {
                Greeter::Decoding
            } else {
                Greeter::Ended
            },
            _ => Greeter::Ended,
        }
    }

    /// What is done after an event.
    pub open spec fn next_action(self, event: HandshakeEventView) -> HandshakeActionView {
        match (self.stage, event) {
            (Greeter::Fresh, _) => HandshakeActionView::SendBytes(
                own_greeting(self.info_hash@, self.peer_id@),
            ),
            (Greeter::Greeting, _) => HandshakeActionView::Read(GREETING_LEN),
            (Greeter::Awaiting, _) => HandshakeActionView::Send(offer_message(self.metadata_size)),
            (Greeter::Listening, HandshakeEventView::Heard(message)) => if message.payload[0]
                == HANDSHAKE_MESSAGE_ID {
                HandshakeActionView::Decode(message.payload.skip(1))
            } else {
                HandshakeActionView::Fail(HandshakeError::WrongId)
            },
            (Greeter::Decoding, HandshakeEventView::Decoded(extensions)) => {
                HandshakeActionView::Accept(extensions)
            },
            _ => HandshakeActionView::Listen,
        }
    }

    /// Whether an event can follow the last action.
    pub fn takes(&self, event: &HandshakeEvent) -> (can: bool)
        ensures
            can == self.can_take(event@),
    {
        match (&self.stage, event) {
            (Greeter::Awaiting, HandshakeEvent::Read(bytes)) => {
                match Handshake::deserialize(bytes.as_slice()) {
                    Some(greeting) => {
                        proof {
                            law_greeting_bytes_determine_fields(greeting, greeting);
                            assert(bytes@.len() == GREETING_LEN ==> bytes@.take(
                                GREETING_LEN as int,
                            ) =~= bytes@);
                        }
                        bytes.len() == GREETING_LEN && same_bytes(
                            &greeting.info_hash,
                            &self.info_hash,
                        )
                    },
                    None => false,
                }
            },
            (Greeter::Listening, HandshakeEvent::Heard(message)) => message.payload.len() > 0,
            (Greeter::Decoding, HandshakeEvent::Decoded(extensions)) => {
                extensions.ut_metadata.is_some()
            },
            (Greeter::Fresh, HandshakeEvent::Ready) => true,
            (Greeter::Greeting, HandshakeEvent::Ready) => true,
            (Greeter::Offering, HandshakeEvent::Ready) => true,
            _ => false,
        }
    }

    /// Decides, after an event, what is done next.
    pub fn step(&mut self, event: HandshakeEvent) -> (action: HandshakeAction)
        requires
            old(self).can_take(event@),
        ensures
            action@ == old(self).next_action(event@),
            *final(self) == (Handshaking { stage: old(self).next_stage(event@), ..*old(self) }),
    {
        match (&self.stage, event) {
            (Greeter::Fresh, _) => {
                self.stage = Greeter::Greeting;
                let greeting = Handshake::new(self.info_hash, self.peer_id);
                HandshakeAction::SendBytes(greeting.serialize())
            },
            (Greeter::Greeting, _) => {
                self.stage = Greeter::Awaiting;
                HandshakeAction::Read(GREETING_LEN)
            },
            (Greeter::Awaiting, _) => {
                self.stage = Greeter::Offering;
                let mut payload: Vec<u8> = Vec::new();
                payload.push(HANDSHAKE_MESSAGE_ID);
                push_bytes(
                    &mut payload,
                    ExtHandshake::offer(self.metadata_size).to_bytes().as_slice(),
                );
                let message = Message { id: opcode::EXTENDED, payload };
                assert(message@ =~= offer_message(self.metadata_size));
                HandshakeAction::Send(message)
            },
            (Greeter::Listening, HandshakeEvent::Heard(message)) => {
                if message.payload[0] == HANDSHAKE_MESSAGE_ID {
                    self.stage = Greeter::Decoding;
                    let rest = copy_range(message.payload.as_slice(), 1, message.payload.len());
                    assert(rest@ =~= message.payload@.skip(1));
                    HandshakeAction::Decode(rest)
                } else {
                    self.stage = Greeter::Ended;
                    HandshakeAction::Fail(HandshakeError::WrongId)
                }
            },
            (Greeter::Decoding, HandshakeEvent::Decoded(extensions)) => {
                self.stage = Greeter::Ended;
                HandshakeAction::Accept(extensions)
            },
            _ => {
                self.stage = Greeter::Listening;
                HandshakeAction::Listen
            },
        }
    }
}

impl PeerView {
    /// The state of a peer after it has told of its extensions.
    pub open spec fn accepting(self, extensions: ExtHandshake) -> PeerView {
        PeerView {
            metadata_size: extensions.metadata_size,
            message_id: extensions.ut_metadata->0 as u8,
            ..self
        }
    }
}

impl PeerState {
    /// Takes note of the extensions that a peer supports.
    pub fn accept(&mut self, extensions: ExtHandshake)
        requires
            extensions.ut_metadata is Some,
        ensures
            final(self)@ == old(self)@.accepting(extensions),
            final(self).metadata_size == extensions.metadata_size,
            0 <= extensions.ut_metadata->0 <= 255 ==> final(self).message_id
                == extensions.ut_metadata->0,
            final(self).bitfield == old(self).bitfield,
            final(self).choked == old(self).choked,
    {
        self.metadata_size = extensions.metadata_size;
        #[verifier::truncate]
        let message_id: u8 = extensions.ut_metadata.unwrap() as u8;
        self.message_id = message_id;
    }
}

impl Torrent {
    /// Starts the handshake with a peer.
    pub fn handshake(info_hash: [u8; 20], peer_id: [u8; 20], metadata_size: Option<u32>) -> (
        handshaking: Handshaking
    )
        ensures
            handshaking == (Handshaking {
                info_hash,
                peer_id,
                metadata_size,
                stage: Greeter::Fresh,
            }),
    {
        Handshaking { info_hash, peer_id, metadata_size, stage: Greeter::Fresh }
    }
}

/// The greeting of a peer is accepted if and only if it is about the same
/// torrent.
pub proof fn law_same_torrent_is_accepted(
    handshaking: Handshaking,
    info_hash: Seq<u8>,
    peer_id: Seq<u8>,
)
    requires
        handshaking.stage is Awaiting,
        info_hash.len() == 20,
        peer_id.len() == 20,
    ensures
        handshaking.can_take(HandshakeEventView::Read(own_greeting(info_hash, peer_id)))
            <==> info_hash == handshaking.info_hash@,
{
    reveal_strlit("BitTorrent protocol");
    assert(greeted_hash(own_greeting(info_hash, peer_id)) =~= info_hash);
}

/// The size that is offered to a peer is the size that a peer notes, and both
/// sides agree on the number for metadata messages.
pub proof fn law_offer_is_noted(peer: PeerView, metadata_size: Option<u32>)
    ensures
        ExtHandshake::offered(metadata_size).ut_metadata is Some,
        peer.accepting(ExtHandshake::offered(metadata_size)).metadata_size == metadata_size,
        peer.accepting(ExtHandshake::offered(metadata_size)).message_id == 1,
{
}

/// The own greeting byte by byte: nineteen and the name of the protocol, eight
/// bytes of which one bit stands for the extension protocol, the info hash and
/// the peer id.
pub proof fn law_own_greeting_layout(info_hash: Seq<u8>, peer_id: Seq<u8>, i: int)
    requires
        info_hash.len() == 20,
        peer_id.len() == 20,
    ensures
        ({
            let greeting = own_greeting(info_hash, peer_id);
            &&& greeting.len() == 68
            &&& greeting[0] == 19
            &&& 0 <= i < 19 ==> greeting[1 + i] == "BitTorrent protocol"@[i] as u8
            &&& 0 <= i < 8 ==> greeting[20 + i] == if i == 5 {
                0x10u8
            } else {
                0
            }
            &&& 0 <= i < 20 ==> greeting[28 + i] == info_hash[i]
            &&& 0 <= i < 20 ==> greeting[48 + i] == peer_id[i]
        }),
{
    reveal_strlit("BitTorrent protocol");
}

/// The offer that is made to a peer on the wire: a zero, and that metadata messages
/// have the number one, with the size of the metadata if it is known.
pub proof fn law_offer_on_the_wire(metadata_size: Option<u32>)
    ensures
        offer_message(metadata_size).id == opcode::EXTENDED,
        offer_message(metadata_size).payload == seq![0u8] + ascii(
            "d1:md"@ + int_field("11:ut_metadata"@, Some(1)) + "e"@ + int_field(
                "13:metadata_size"@,
                option_u32(metadata_size),
            ) + "e"@,
        ),
{
    law_extensions_on_the_wire(ExtHandshake::offered(metadata_size));
}

/// How a handshake goes on: the own greeting is sent, 68 bytes are read, and if
/// they are about the same torrent, the own extensions are offered and the
/// peer's are awaited. What it answers is decoded after the first byte if that
/// is zero, and is wrong if it is not. Extensions that include metadata messages
/// are accepted as they are.
pub proof fn law_handshake_goes_on(
    handshaking: Handshaking,
    bytes: Seq<u8>,
    message: MessageView,
    extensions: ExtHandshake,
)
    ensures
        ({
            let ready = HandshakeEventView::Ready;
            let read = HandshakeEventView::Read(bytes);
            let heard = HandshakeEventView::Heard(message);
            let decoded = HandshakeEventView::Decoded(extensions);
            let stage = handshaking.stage;
            &&& stage is Fresh ==> {
                &&& handshaking.can_take(ready)
                &&& handshaking.next_stage(ready) is Greeting
                &&& handshaking.next_action(ready) == HandshakeActionView::SendBytes(
                    own_greeting(handshaking.info_hash@, handshaking.peer_id@),
                )
            }
            &&& stage is Greeting ==> {
                &&& handshaking.can_take(ready)
                &&& handshaking.next_stage(ready) is Awaiting
                &&& handshaking.next_action(ready) == HandshakeActionView::Read(68)
            }
            &&& stage is Awaiting ==> {
                &&& handshaking.can_take(read) <==> bytes.len() == 68 && bytes.subrange(28, 48)
                    == handshaking.info_hash@
                &&& handshaking.next_stage(read) is Offering
                &&& handshaking.next_action(read) == HandshakeActionView::Send(
                    offer_message(handshaking.metadata_size),
                )
            }
            &&& stage is Offering ==> {
                &&& handshaking.can_take(ready)
                &&& handshaking.next_stage(ready) is Listening
                &&& handshaking.next_action(ready) == HandshakeActionView::Listen
            }
            &&& stage is Listening && message.payload.len() > 0 ==> {
                &&& handshaking.can_take(heard)
                &&& message.payload[0] == 0 ==> {
                    &&& handshaking.next_stage(heard) is Decoding
                    &&& handshaking.next_action(heard) == HandshakeActionView::Decode(
                        message.payload.subrange(1, message.payload.len() as int),
                    )
                }
                &&& message.payload[0] != 0 ==> {
                    &&& handshaking.next_stage(heard) is Ended
                    &&& handshaking.next_action(heard) == HandshakeActionView::Fail(
                        HandshakeError::WrongId,
                    )
                }
            }
            &&& stage is Decoding ==> {
                &&& handshaking.can_take(decoded) <==> extensions.ut_metadata is Some
                &&& handshaking.next_stage(decoded) is Ended
                &&& handshaking.next_action(decoded) == HandshakeActionView::Accept(extensions)
            }
        }),
{
    if message.payload.len() > 0 {
        assert(message.payload.skip(1) =~= message.payload.subrange(
            1,
            message.payload.len() as int,
        ));
    }
}

/// What a peer tells of its extensions is noted as it is: the size, known or not,
/// and the number, if it is a byte. What was known of its pieces and of its
/// choking stays.
pub proof fn law_extensions_are_noted(peer: PeerView, extensions: ExtHandshake)
    requires
        extensions.ut_metadata is Some,
    ensures
        ({
            let after = peer.accepting(extensions);
            &&& after.metadata_size == extensions.metadata_size
            &&& 0 <= extensions.ut_metadata->0 <= 255 ==> after.message_id
                == extensions.ut_metadata->0
            &&& after.bits == peer.bits
            &&& after.choked == peer.choked
        }),
{
}

/// The models of events and actions have all that these have.
pub proof fn law_handshake_is_modelled(event: HandshakeEvent, action: HandshakeAction)
    ensures
        event@ is Ready <==> event is Ready,
        event matches HandshakeEvent::Read(bytes) ==> event@ == HandshakeEventView::Read(bytes@),
        event matches HandshakeEvent::Heard(message) ==> event@ == HandshakeEventView::Heard(
            message@,
        ),
        event matches HandshakeEvent::Decoded(extensions) ==> event@
            == HandshakeEventView::Decoded(extensions),
        action matches HandshakeAction::SendBytes(bytes) ==> action@
            == HandshakeActionView::SendBytes(bytes@),
        action matches HandshakeAction::Read(count) ==> action@ == HandshakeActionView::Read(count),
        action matches HandshakeAction::Send(message) ==> action@ == HandshakeActionView::Send(
            message@,
        ),
        action@ is Listen <==> action is Listen,
        action matches HandshakeAction::Decode(bytes) ==> action@ == HandshakeActionView::Decode(
            bytes@,
        ),
        action matches HandshakeAction::Accept(extensions) ==> action@
            == HandshakeActionView::Accept(extensions),
        action matches HandshakeAction::Fail(error) ==> action@ == HandshakeActionView::Fail(error),
{
}

} // verus!
