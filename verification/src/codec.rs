//! Fixed-layout records: the greeting that opens a connection, the request for
//! a block, and the peer addresses of a tracker.
use bincode::Options;
use byteorder::ByteOrder;
use vstd::prelude::*;

use crate::bytes::be32_value;

verus! {

/// What `bincode` fails with.
#[verifier::external_type_specification]
#[verifier::external_body]
pub struct ExErrorKind(bincode::ErrorKind);

/// The bytes of a greeting: a length, the protocol's name, reserved bits, an
/// info hash and a peer id, one after the other.
pub open spec fn greeting_bytes(
    len: u8,
    protocol: Seq<u8>,
    reserved: Seq<u8>,
    info_hash: Seq<u8>,
    peer_id: Seq<u8>,
) -> Seq<u8> {
    seq![len] + protocol + reserved + info_hash + peer_id
}

/// The number of bytes in a greeting.
pub const GREETING_LEN: usize = 68;

/// Calls `bincode::serialize` on the fields of a greeting. Bytes and arrays of
/// bytes are written as they are, without a length, and nothing can fail.
#[verifier::external_body]
pub(crate) fn serialize_greeting(
    len: u8,
    protocol: [u8; 19],
    reserved: [u8; 8],
    info_hash: [u8; 20],
    peer_id: [u8; 20],
) -> (result: Result<Vec<u8>, Box<bincode::ErrorKind>>)
    ensures
        result is Ok,
        result matches Ok(bytes) ==> bytes@ == greeting_bytes(
            len,
            protocol@,
            reserved@,
            info_hash@,
            peer_id@,
        ),
{
    bincode::serialize(&(len, protocol, reserved, info_hash, peer_id))
}

/// Calls `bincode::deserialize` for the fields of a greeting. It takes them
/// from the first 68 bytes, ignores what follows, and fails if there are fewer.
#[verifier::external_body]
pub(crate) fn deserialize_greeting(bytes: &[u8]) -> (result: Result<
    (u8, [u8; 19], [u8; 8], [u8; 20], [u8; 20]),
    Box<bincode::ErrorKind>,
>)
    ensures
        result is Ok <==> bytes@.len() >= 68,
        result matches Ok(fields) ==> greeting_bytes(
            fields.0,
            fields.1@,
            fields.2@,
            fields.3@,
            fields.4@,
        ) == bytes@.take(68),
{
    bincode::deserialize(bytes)
}

/// Calls `bincode` with big-endian integers of fixed width for three 32-bit
/// integers. It fails unless there are exactly twelve bytes.
#[verifier::external_body]
pub(crate) fn deserialize_three_be32(bytes: &[u8]) -> (result: Result<
    (u32, u32, u32),
    Box<bincode::ErrorKind>,
>)
    ensures
        result is Ok <==> bytes@.len() == 12,
        result matches Ok(fields) ==> {
            &&& fields.0 == be32_value(bytes@)
            &&& fields.1 == be32_value(bytes@.skip(4))
            &&& fields.2 == be32_value(bytes@.skip(8))
        },
{
    bincode::DefaultOptions::new().with_big_endian().with_fixint_encoding().deserialize(bytes)
}

/// Calls `byteorder::BigEndian::read_u16`, which panics on fewer than two bytes.
#[verifier::external_body]
pub(crate) fn read_be16(bytes: &[u8]) -> (n: u16)
    requires
        bytes@.len() >= 2,
    ensures
        n == bytes@[0] * 0x100 + bytes@[1],
{
    byteorder::BigEndian::read_u16(bytes)
}

} // verus!
