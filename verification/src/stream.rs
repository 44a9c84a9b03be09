//! Bytes that have arrived and wait to be read.
use vstd::prelude::*;

verus! {

/// A buffer for bytes between their arrival and their being read.
#[derive(Debug)]
pub struct ReadBuffer {
    /// The bytes, the oldest first.
    pub buf: Vec<u8>,
}

impl Default for ReadBuffer {
    fn default() -> (buffer: ReadBuffer)
        ensures
            buffer.buf@ == Seq::<u8>::empty(),
    {
        ReadBuffer { buf: Vec::new() }
    }
}

/// What a buffer holds after bytes have arrived.
pub open spec fn put_in(buf: Seq<u8>, data: Seq<u8>) -> Seq<u8> {
    buf + data
}

/// What a buffer hands out when `count` bytes are asked for, and what it holds
/// then.
pub open spec fn taken_out(buf: Seq<u8>, count: nat) -> (Option<Seq<u8>>, Seq<u8>) {
    if buf.len() < count {
        (None, buf)
    } else {
        (Some(buf.take(count as int)), buf.skip(count as int))
    }
}

/// Optional bytes as a sequence.
pub open spec fn bytes_view(data: Option<Vec<u8>>) -> Option<Seq<u8>> {
    match data {
        Some(bytes) => Some(bytes@),
        None => None,
    }
}

impl ReadBuffer {
    /// Takes in bytes that have arrived.
    pub fn put(&mut self, mut data: Vec<u8>)
        ensures
            final(self).buf@ == old(self).buf@ + data@,
            final(self).buf@ == put_in(old(self).buf@, data@),
    {
        self.buf.append(&mut data);
    }

    /// Hands out exactly `count` bytes, or none while there are fewer.
    pub fn take(&mut self, count: usize) -> (data: Option<Vec<u8>>)
        ensures
            (bytes_view(data), final(self).buf@) == taken_out(old(self).buf@, count as nat),
            old(self).buf@.len() < count ==> data is None && final(self).buf@ == old(self).buf@,
            old(self).buf@.len() >= count ==> {
                &&& data matches Some(bytes)
                &&& bytes@ == old(self).buf@.take(count as int)
                &&& final(self).buf@ == old(self).buf@.skip(count as int)
            },
    {
        if self.buf.len() < count {
            return None;
        }
        let mut rest = self.buf.split_off(count);
        std::mem::swap(&mut rest, &mut self.buf);
        Some(rest)
    }
}

/// What happens to a buffer.
pub enum BufferEvent {
    /// These bytes arrive.
    Put(Seq<u8>),
    /// This many bytes are asked for.
    Take(nat),
}

/// The bytes that are in a buffer after some events, and those that were handed
/// out before.
pub open spec fn buffered(events: Seq<BufferEvent>) -> (Seq<u8>, Seq<u8>)
    decreases events.len(),
{
    if events.len() == 0 {
        (seq![], seq![])
    } else {
        let (buf, out) = buffered(events.drop_last());
        match events.last() {
            BufferEvent::Put(data) => (put_in(buf, data), out),
            BufferEvent::Take(count) => match taken_out(buf, count) {
                (Some(data), rest) => (rest, out + data),
                (None, rest) => (rest, out),
            },
        }
    }
}

/// All bytes that have arrived.
pub open spec fn arrived(events: Seq<BufferEvent>) -> Seq<u8>
    decreases events.len(),
{
    if events.len() == 0 {
        seq![]
    } else {
        match events.last() {
            BufferEvent::Put(data) => arrived(events.drop_last()) + data,
            BufferEvent::Take(_) => arrived(events.drop_last()),
        }
    }
}

/// Bytes come out in the order in which they arrived, and none is lost: what
/// was handed out, followed by what is in the buffer, is all that arrived.
pub proof fn law_bytes_keep_their_order(events: Seq<BufferEvent>)
    ensures
        buffered(events).1 + buffered(events).0 == arrived(events),
    decreases events.len(),
{
    if events.len() > 0 {
        let before = events.drop_last();
        law_bytes_keep_their_order(before);
        let (buf, out) = buffered(before);
        match events.last() {
            BufferEvent::Put(data) => {
                assert(out + (buf + data) =~= (out + buf) + data);
            },
            BufferEvent::Take(count) => {
                if buf.len() >= count {
                    assert((out + buf.take(count as int)) + buf.skip(count as int) =~= out + buf);
                }
            },
        }
    } else {
        assert(buffered(events).1 + buffered(events).0 =~= arrived(events));
    }
}

/// A read is exact: as many bytes come out as were asked for, as soon as there
/// are as many, and none before.
pub proof fn law_reads_are_exact(buf: Seq<u8>, data: Seq<u8>, count: nat)
    ensures
        taken_out(buf, count).0 is Some <==> count <= buf.len(),
        taken_out(buf, count).0 matches Some(bytes) ==> bytes.len() == count,
        taken_out(buf, count).0 is None ==> taken_out(buf, count).1 == buf,
        put_in(buf, data).len() == buf.len() + data.len(),
        taken_out(put_in(data, buf), data.len()) == (Some(data), buf),
{
    assert((data + buf).take(data.len() as int) =~= data);
    assert((data + buf).skip(data.len() as int) =~= buf);
}

} // verus!
