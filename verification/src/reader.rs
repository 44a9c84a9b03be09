//! Reading messages off a connection, piece by piece.
use vstd::prelude::*;

use crate::bytes::{be32, be32_value, contains_byte, copy_range, lemma_be32_value, read_be32};
use crate::message::{first_frame, Frame, Message, MessageView};
use crate::opcode;
use crate::peer::{PeerState, PeerView};

verus! {

/// Reads messages from a connection. The caller reads as many bytes as are
/// wanted and feeds them in; a message comes out if it is of a kind that the
/// caller listens for.
#[derive(Debug, Clone, Copy)]
pub struct MessageReader {
    /// The length of the message whose body is read next, or `None` if a
    /// length is read next.
    pub pending: Option<u32>,
}

/// The number of bytes that are read next.
pub open spec fn bytes_wanted(pending: Option<u32>) -> nat {
    match pending {
        Some(len) => len as nat,
        None => 4,
    }
}

/// What is pending after a length has been read: nothing if it was zero.
pub open spec fn after_length(bytes: Seq<u8>) -> Option<u32> {
    if be32_value(bytes) == 0 {
        None
    } else {
        Some(be32_value(bytes))
    }
}

/// The message whose body is `bytes`: its kind, then its payload.
pub open spec fn body_message(bytes: Seq<u8>) -> MessageView {
    MessageView { id: bytes[0], payload: bytes.skip(1) }
}

impl MessageReader {
    /// A body is never empty.
    pub open spec fn wf(self) -> bool {
        self.pending != Some(0u32)
    }

    /// A reader at the start of a message.
    pub fn new() -> (reader: MessageReader)
        ensures
            reader.wf(),
            reader.pending is None,
    {
        MessageReader { pending: None }
    }

    /// How many bytes to read and feed next.
    pub fn wanted(&self) -> (count: usize)
        ensures
            count == bytes_wanted(self.pending),
    {
        match self.pending {
            Some(len) => len as usize,
            None => 4,
        }
    }

    /// Takes the bytes that were wanted. After a length, its body is wanted,
    /// unless it is zero. After a body, `state` takes note of the message, and
    /// the message is returned if its kind is in `listen`.
    pub fn feed(&mut self, bytes: &[u8], listen: &[u8], state: &mut PeerState) -> (message: Option<
        Message,
    >)
        requires
            old(self).wf(),
            bytes@.len() == bytes_wanted(old(self).pending),
            old(self).pending is Some && bytes@[0] == opcode::BITFIELD ==> 8 * (bytes@.len() - 1)
                <= usize::MAX,
        ensures
            final(self).wf(),
            old(self).pending is None ==> {
                &&& final(self).pending == after_length(bytes@)
                &&& final(state)@ == old(state)@
                &&& message is None
            },
            old(self).pending is Some ==> {
                &&& final(self).pending is None
                &&& final(state)@ == old(state)@.after(body_message(bytes@))
                &&& message is Some <==> listen@.contains(bytes@[0])
                &&& message matches Some(m) ==> m@ == body_message(bytes@)
            },
    {
        match self.pending {
            None => {
                let len: u32 = read_be32(bytes);
                if len > 0 {
                    self.pending = Some(len);
                }
                None
            },
            Some(_) => {
                self.pending = None;
                let message = Message {
                    id: bytes[0],
                    payload: copy_range(bytes, 1, bytes.len()),
                };
                assert(message@ =~= body_message(bytes@));
                state.note(&message);
                if contains_byte(listen, message.id) {
                    Some(message)
                } else {
                    None
                }
            },
        }
    }
}

/// What comes of feeding a reader from `input` until a message comes out: the
/// message, the peer's state by then, and the input that is left. `None` if
/// the input ends first.
pub open spec fn fed(
    pending: Option<u32>,
    input: Seq<u8>,
    listen: Seq<u8>,
    state: PeerView,
) -> Option<(MessageView, PeerView, Seq<u8>)>
    decreases input.len(),
{
    let count = bytes_wanted(pending);
    if count == 0 || input.len() < count {
        None
    } else {
        let bytes = input.take(count as int);
        let rest = input.skip(count as int);
        match pending {
            None => fed(after_length(bytes), rest, listen, state),
            Some(_) => {
                let message = body_message(bytes);
                if listen.contains(message.id) {
                    Some((message, state.after(message), rest))
                } else {
                    fed(None, rest, listen, state.after(message))
                }
            },
        }
    }
}

/// The first message in `input` of a kind in `listen`, the peer's state after
/// that message and all before it, and the input that follows it.
pub open spec fn received(input: Seq<u8>, listen: Seq<u8>, state: PeerView) -> Option<
    (MessageView, PeerView, Seq<u8>),
>
    decreases input.len(),
{
    match first_frame(input) {
        Frame::Incomplete => None,
        Frame::KeepAlive => received(input.skip(4), listen, state),
        Frame::Message(message, len) => if listen.contains(message.id) {
            Some((message, state.after(message), input.skip(len as int)))
        } else {
            received(input.skip(len as int), listen, state.after(message))
        },
    }
}

/// A reader that is fed what it wants hands out the first message of a kind that
/// is listened for, and the peer's state takes in every message up to it.
pub proof fn law_reader_finds_first_listened(input: Seq<u8>, listen: Seq<u8>, state: PeerView)
    ensures
        fed(None, input, listen, state) == received(input, listen, state),
    decreases input.len(),
{
    if input.len() >= 4 {
        let prefix = input.take(4);
        let rest = input.skip(4);
        let n = be32_value(input);
        assert(be32_value(prefix) == n);
        if n == 0 {
            law_reader_finds_first_listened(rest, listen, state);
        } else if rest.len() >= n {
            reveal_with_fuel(fed, 2);
            let body = rest.take(n as int);
            let message = body_message(body);
            assert(message =~= MessageView { id: input[4], payload: input.subrange(5, 4 + n) });
            assert(rest.skip(n as int) =~= input.skip(4 + n));
            law_reader_finds_first_listened(input.skip(4 + n), listen, state.after(message));
        } else {
            reveal_with_fuel(fed, 2);
        }
    }
}

/// A frame that was written is read back as the message it was written from,
/// whatever follows it. A message of 2^32 - 1 bytes or more is left out: its
/// length does not fit the prefix.
pub proof fn law_frame_reads_back(message: MessageView, rest: Seq<u8>)
    requires
        message.payload.len() + 1 < 0x1_0000_0000,
    ensures
        first_frame(message.frame() + rest) == Frame::Message(
            message,
            message.frame().len(),
        ),
        (message.frame() + rest).skip(message.frame().len() as int) == rest,
{
    let n = message.length_prefix();
    let input = message.frame() + rest;
    lemma_be32_value(n, seq![message.id] + message.payload + rest);
    assert(input =~= be32(n) + (seq![message.id] + message.payload + rest));
    assert(input.subrange(5, 4 + n) =~= message.payload);
    assert(input.skip(message.frame().len() as int) =~= rest);
}

/// A message that was sent is received by whoever listens for its kind, and
/// passed over, though noted, by whoever does not.
pub proof fn law_sent_is_received(
    message: MessageView,
    rest: Seq<u8>,
    listen: Seq<u8>,
    state: PeerView,
)
    requires
        message.payload.len() + 1 < 0x1_0000_0000,
    ensures
        received(message.frame() + rest, listen, state) == if listen.contains(message.id) {
            Some((message, state.after(message), rest))
        } else {
            received(rest, listen, state.after(message))
        },
{
    law_frame_reads_back(message, rest);
}

/// A keep-alive frame changes nothing.
pub proof fn law_keep_alive_is_passed_over(rest: Seq<u8>, listen: Seq<u8>, state: PeerView)
    ensures
        received(be32(0) + rest, listen, state) == received(rest, listen, state),
{
    lemma_be32_value(0, rest);
    assert((be32(0) + rest).skip(4) =~= rest);
}

/// A reader wants four bytes for a length, and then as many as the length told,
/// unless it was zero; the body's first byte is the message's kind, and the
/// rest its payload.
pub proof fn law_reader_wants_what_was_told(n: u32, message: MessageView)
    ensures
        bytes_wanted(None) == 4,
        n > 0 ==> bytes_wanted(after_length(be32(n))) == n,
        n == 0 ==> bytes_wanted(after_length(be32(n))) == 4 && after_length(be32(n)) is None,
        body_message(seq![message.id] + message.payload) == message,
{
    lemma_be32_value(n, seq![]);
    assert(be32(n) + seq![] =~= be32(n));
    let body = seq![message.id] + message.payload;
    assert(body.skip(1) =~= message.payload);
}

} // verus!
