//! Messages between peers and how they are laid out on the wire.
use vstd::prelude::*;

use crate::bytes::{be32, be32_value, copy_range, push_be32, push_bytes, read_be32};
use crate::opcode::{opcode_name, OpcodeName};
use crate::text::{decimal_nat, nat_text};

verus! {

/// A message of the peer protocol.
#[derive(Debug, PartialEq)]
pub struct Message {
    /// The kind of the message.
    pub id: u8,
    /// What follows the kind.
    pub payload: Vec<u8>,
}

/// A message with its payload as a sequence.
#[verifier::ext_equal]
pub struct MessageView {
    pub id: u8,
    pub payload: Seq<u8>,
}

impl View for Message {
    type V = MessageView;

    open spec fn view(&self) -> MessageView {
        MessageView { id: self.id, payload: self.payload@ }
    }
}

impl MessageView {
    /// The number that announces the length of the message on the wire: that of
    /// the kind and the payload together, modulo 2^32.
    pub open spec fn length_prefix(self) -> u32 {
        ((self.payload.len() + 1) % 0x1_0000_0000) as u32
    }

    /// The message on the wire: its length, its kind, its payload.
    pub open spec fn frame(self) -> Seq<u8> {
        be32(self.length_prefix()) + seq![self.id] + self.payload
    }
}

/// A frame at the start of a byte string.
pub enum Frame {
    /// The bytes end before the frame does.
    Incomplete,
    /// A frame of length zero, which only keeps the connection open.
    KeepAlive,
    /// A message, with the number of bytes that its frame takes.
    Message(MessageView, nat),
}

/// The frame with which a byte string starts.
pub open spec fn first_frame(bytes: Seq<u8>) -> Frame {
    if bytes.len() < 4 {
        Frame::Incomplete
    } else if be32_value(bytes) == 0 {
        Frame::KeepAlive
    } else if bytes.len() < 4 + be32_value(bytes) {
        Frame::Incomplete
    } else {
        let end = 4 + be32_value(bytes) as nat;
        Frame::Message(
            MessageView { id: bytes[4], payload: bytes.subrange(5, end as int) },
            end,
        )
    }
}

/// The input ended in the middle of a message.
#[derive(Debug, Clone, Copy, PartialEq, Eq, Structural)]
pub struct UnexpectedEof;

impl Message {
    /// A message of kind `id`; without a payload, one with an empty payload.
    pub fn new(id: u8, payload: Option<Vec<u8>>) -> (message: Message)
        ensures
            message.id == id,
            payload is None ==> message.payload@ == Seq::<u8>::empty(),
            payload matches Some(p) ==> message.payload == p,
    {
        match payload {
            Some(payload) => Message { id, payload },
            None => Message { id, payload: Vec::new() },
        }
    }

    /// The number that announces the length of the message on the wire.
    pub fn length_prefix(&self) -> (n: u32)
        requires
            self.payload@.len() < usize::MAX,
        ensures
            n == self@.length_prefix(),
    {
        let length: usize = self.payload.len() + 1;
        let wide: u64 = length as u64;
        proof {
            assert(wide as u32 == wide % 0x1_0000_0000) by (bit_vector);
        }
        #[verifier::truncate]
        (wide as u32)
    }

    /// The message as it is sent: its length, its kind, its payload.
    pub fn serialize(&self) -> (frame: Vec<u8>)
        requires
            self.payload@.len() < usize::MAX,
        ensures
            frame@ == self@.frame(),
    {
        let mut frame: Vec<u8> = Vec::new();
        push_be32(&mut frame, self.length_prefix());
        frame.push(self.id);
        push_bytes(&mut frame, self.payload.as_slice());
        assert(frame@ =~= self@.frame());
        frame
    }

    /// Takes the first frame off `input`. A keep-alive frame carries no message.
    /// If the frame is not complete, `input` stays as it is.
    pub fn read(input: &mut &[u8]) -> (result: Result<Option<Message>, UnexpectedEof>)
        ensures
            match first_frame(old(input)@) {
                Frame::Incomplete => result is Err && final(input)@ == old(input)@,
                Frame::KeepAlive => {
                    &&& result == Ok::<Option<Message>, UnexpectedEof>(None)
                    &&& final(input)@ == old(input)@.skip(4)
                },
                Frame::Message(message, len) => {
                    &&& result matches Ok(Some(m))
                    &&& m@ == message
                    &&& final(input)@ == old(input)@.skip(len as int)
                },
            },
    {
        let bytes: &[u8] = *input;
        if bytes.len() < 4 {
            return Err(UnexpectedEof);
        }
        let len: u32 = read_be32(bytes);
        let (_, rest) = bytes.split_at(4);
        if len == 0 {
            *input = rest;
            return Ok(None);
        }
        if rest.len() < len as usize {
            return Err(UnexpectedEof);
        }
        let (body, rest) = rest.split_at(len as usize);
        let message = Message { id: body[0], payload: copy_range(body, 1, body.len()) };
        *input = rest;
        assert(message.payload@ =~= bytes@.subrange(5, 4 + len));
        assert(rest@ =~= bytes@.skip(4 + len));
        Ok(Some(message))
    }

    /// How the message shows in logs: the name of its kind and the size of its
    /// payload.
    pub fn describe(&self) -> (text: String)
        requires
            opcode_name(self.id) is Some,
        ensures
            text@ == "Message { id: \""@ + opcode_name(self.id)->0
                + "\", payload: \"<payload with "@ + decimal_nat(self.payload@.len())
                + " bytes>\" }"@,
    {
        let mut text = "Message { id: \"".to_owned();
        text.append(self.id.to_opcode_name());
        text.append("\", payload: \"<payload with ");
        text.append(nat_text(self.payload.len() as u64).as_str());
        text.append(" bytes>\" }");
        text
    }
}

/// A frame is four bytes that tell how many follow, then the kind, then the
/// payload, with nothing between or behind. Lengths of 2^32 or more are told
/// modulo 2^32.
pub proof fn law_frame_layout(message: MessageView)
    ensures
        message.frame().len() == 5 + message.payload.len(),
        message.frame()[4] == message.id,
        message.frame().skip(5) == message.payload,
        message.frame().take(4) == be32(message.length_prefix()),
        message.payload.len() + 1 < 0x1_0000_0000 ==> message.length_prefix()
            == message.frame().len() - 4,
        (message.payload.len() + 1 - message.length_prefix()) % 0x1_0000_0000 == 0,
{
    assert(message.frame().skip(5) =~= message.payload);
    assert(message.frame().take(4) =~= be32(message.length_prefix()));
}

/// What is read as a message is what stands behind a length that is not zero,
/// once as many bytes are there; a length of zero is a keep-alive.
pub proof fn law_first_frame_is_delimited(bytes: Seq<u8>)
    ensures
        first_frame(bytes) is KeepAlive <==> bytes.len() >= 4 && bytes.take(4) == seq![
            0u8,
            0,
            0,
            0,
        ],
        first_frame(bytes) is Incomplete <==> bytes.len() < 4 || bytes.len() < 4 + be32_value(
            bytes,
        ),
        first_frame(bytes) matches Frame::Message(message, len) ==> {
            &&& len == 4 + be32_value(bytes)
            &&& 5 <= len <= bytes.len()
            &&& seq![message.id] + message.payload == bytes.subrange(4, len as int)
        },
{
    if bytes.len() >= 4 {
        if be32_value(bytes) == 0 {
            assert(bytes.take(4) =~= seq![0u8, 0, 0, 0]);
        } else if bytes.take(4) == seq![0u8, 0, 0, 0] {
            assert(bytes.take(4)[0] == bytes[0]);
            assert(bytes.take(4)[1] == bytes[1]);
            assert(bytes.take(4)[2] == bytes[2]);
            assert(bytes.take(4)[3] == bytes[3]);
        }
        if let Frame::Message(message, len) = first_frame(bytes) {
            assert(seq![message.id] + message.payload =~= bytes.subrange(4, len as int));
        }
    }
}

/// The model of a message has all that the message has.
pub proof fn law_message_is_modelled(message: Message)
    ensures
        message@.id == message.id,
        message@.payload == message.payload@,
{
}

} // verus!
