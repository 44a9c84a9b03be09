//! What is known of a connected peer.
use bit_vec::BitVec;
use vstd::prelude::*;

use crate::bits::{bits_from_bytes, bits_of, byte_bits, no_bits};
use crate::message::{Message, MessageView};
use crate::opcode;

verus! {

/// What a peer has told about itself.
#[derive(Debug)]
pub struct PeerState {
    /// The pieces that the peer has; empty until it has sent its bit field.
    pub bitfield: BitVec,
    /// Whether the peer refuses requests at present.
    pub choked: bool,
    /// The size of the torrent's metadata, as the peer gives it.
    pub metadata_size: Option<u32>,
    /// The number under which the peer accepts metadata messages.
    pub message_id: u8,
}

/// A peer's state with its bit field as a sequence.
#[verifier::ext_equal]
pub struct PeerView {
    pub bits: Seq<bool>,
    pub choked: bool,
    pub metadata_size: Option<u32>,
    pub message_id: u8,
}

impl View for PeerState {
    type V = PeerView;

    open spec fn view(&self) -> PeerView {
        PeerView {
            bits: bits_of(self.bitfield),
            choked: self.choked,
            metadata_size: self.metadata_size,
            message_id: self.message_id,
        }
    }
}

impl PeerView {
    /// The state of a peer that has not told anything yet.
    pub open spec fn unknown() -> PeerView {
        PeerView { bits: seq![], choked: false, metadata_size: None, message_id: 0 }
    }

    /// The state after the peer has sent a message.
    pub open spec fn after(self, message: MessageView) -> PeerView {
        if message.id == opcode::CHOKE {
            PeerView { choked: true, ..self }
        } else if message.id == opcode::UNCHOKE {
            PeerView { choked: false, ..self }
        } else if message.id == opcode::BITFIELD {
            PeerView { bits: byte_bits(message.payload), ..self }
        } else {
            self
        }
    }
}

impl Default for PeerState {
    fn default() -> (state: PeerState)
        ensures
            state@ == PeerView::unknown(),
            bits_of(state.bitfield).len() == 0,
            !state.choked,
            state.metadata_size is None,
            state.message_id == 0,
    {
        let state = PeerState {
            bitfield: no_bits(),
            choked: false,
            metadata_size: None,
            message_id: 0,
        };
        assert(state@ =~= PeerView::unknown());
        state
    }
}

impl PeerState {
    /// Takes note of a message: being choked and unchoked, and the bit field.
    pub fn note(&mut self, message: &Message)
        requires
            message.id == opcode::BITFIELD ==> 8 * message.payload@.len() <= usize::MAX,
        ensures
            final(self)@ == old(self)@.after(message@),
            message.id == opcode::CHOKE ==> final(self).choked,
            message.id == opcode::UNCHOKE ==> !final(self).choked,
            message.id != opcode::CHOKE && message.id != opcode::UNCHOKE ==> final(self).choked
                == old(self).choked,
            message.id != opcode::BITFIELD ==> final(self).bitfield == old(self).bitfield,
            message.id == opcode::BITFIELD ==> bits_of(final(self).bitfield) == byte_bits(
                message.payload@,
            ),
            final(self).metadata_size == old(self).metadata_size,
            final(self).message_id == old(self).message_id,
    {
        if message.id == opcode::CHOKE {
            self.choked = true;
        } else if message.id == opcode::UNCHOKE {
            self.choked = false;
        } else if message.id == opcode::BITFIELD {
            self.bitfield = bits_from_bytes(message.payload.as_slice());
        }
    }
}

/// The state of a peer after it has sent some messages.
pub open spec fn after_all(state: PeerView, messages: Seq<MessageView>) -> PeerView
    decreases messages.len(),
{
    if messages.len() == 0 {
        state
    } else {
        after_all(state, messages.drop_last()).after(messages.last())
    }
}

/// A peer counts as choking if and only if the last CHOKE or UNCHOKE that it
/// sent was a CHOKE, and as it did before if it sent neither.
pub proof fn law_last_word_on_choking_counts(state: PeerView, messages: Seq<MessageView>, i: int)
    ensures
        0 <= i < messages.len() && messages[i].id == opcode::CHOKE && (forall|j: int|
            i < j < messages.len() ==> (#[trigger] messages[j]).id != opcode::UNCHOKE)
            ==> after_all(state, messages).choked,
        0 <= i < messages.len() && messages[i].id == opcode::UNCHOKE && (forall|j: int|
            i < j < messages.len() ==> (#[trigger] messages[j]).id != opcode::CHOKE) ==> !after_all(
            state,
            messages,
        ).choked,
        (forall|j: int|
            0 <= j < messages.len() ==> (#[trigger] messages[j]).id != opcode::CHOKE
                && messages[j].id != opcode::UNCHOKE) ==> after_all(state, messages).choked
            == state.choked,
    decreases messages.len(),
{
    if messages.len() > 0 {
        let before = messages.drop_last();
        law_last_word_on_choking_counts(state, before, i);
        assert(messages[messages.len() - 1] == messages.last());
        assert forall|j: int| 0 <= j < before.len() implies #[trigger] before[j]
            == messages[j] by {}
    }
}

/// The bit field of a peer is the last one that it sent, and what it was before
/// if it sent none. It has eight bits for each byte.
pub proof fn law_last_bitfield_counts(state: PeerView, messages: Seq<MessageView>, i: int)
    ensures
        0 <= i < messages.len() && messages[i].id == opcode::BITFIELD && (forall|j: int|
            i < j < messages.len() ==> (#[trigger] messages[j]).id != opcode::BITFIELD)
            ==> after_all(state, messages).bits == byte_bits(messages[i].payload),
        (forall|j: int|
            0 <= j < messages.len() ==> (#[trigger] messages[j]).id != opcode::BITFIELD)
            ==> after_all(state, messages).bits == state.bits,
    decreases messages.len(),
{
    if messages.len() > 0 {
        let before = messages.drop_last();
        law_last_bitfield_counts(state, before, i);
        assert(messages[messages.len() - 1] == messages.last());
        assert forall|j: int| 0 <= j < before.len() implies #[trigger] before[j]
            == messages[j] by {}
    }
}

/// A message other than CHOKE, UNCHOKE and BITFIELD changes nothing of what is
/// known of a peer; CHOKE and UNCHOKE change nothing but the choking, BITFIELD
/// nothing but the pieces, and no message the metadata's size and number.
pub proof fn law_other_messages_change_nothing(state: PeerView, message: MessageView)
    ensures
        message.id != opcode::CHOKE && message.id != opcode::UNCHOKE && message.id
            != opcode::BITFIELD ==> state.after(message) == state,
        message.id != opcode::BITFIELD ==> state.after(message).bits == state.bits,
        message.id != opcode::CHOKE && message.id != opcode::UNCHOKE ==> state.after(
            message,
        ).choked == state.choked,
        state.after(message).metadata_size == state.metadata_size,
        state.after(message).message_id == state.message_id,
{
}

/// A peer that has said nothing has no pieces, does not choke, and has told
/// nothing of metadata.
pub proof fn law_unknown_peer()
    ensures
        PeerView::unknown().bits.len() == 0,
        !PeerView::unknown().choked,
        PeerView::unknown().metadata_size is None,
        PeerView::unknown().message_id == 0,
{
}

/// The model of a peer's state has all that the state has.
pub proof fn law_peer_is_modelled(state: PeerState)
    ensures
        state@.bits == bits_of(state.bitfield),
        state@.choked == state.choked,
        state@.metadata_size == state.metadata_size,
        state@.message_id == state.message_id,
{
}

} // verus!
