//! The messages of the extension protocol, by which peers exchange metadata.
use serde_bencode::value::Value;
use vstd::prelude::*;

use crate::bencode::{
    ascii, bencode_bytes, bencode_dict, bencode_entries, bencode_int, dict_bytes, dict_value,
    entry_notations, int_value, lemma_ascii_smaller, lemma_entries_push, push_entry,
};
use crate::text::{decimal, decimal_nat};

verus! {

/// The number under which this side accepts metadata messages.
pub const METADATA_MESSAGE_ID: i32 = 1;

/// The number of the message that opens the extension protocol.
pub const HANDSHAKE_MESSAGE_ID: u8 = 0;

/// `ExtMsg::msg_type` of a request for a piece of metadata.
pub const METADATA_REQUEST: i32 = 0;

/// `ExtMsg::msg_type` of the answer to such a request.
pub const METADATA_DATA: i32 = 1;

/// A metadata message: a request for a piece, or the head of the answer.
#[derive(Debug, Clone, Copy, PartialEq, Eq, Structural)]
pub struct ExtMsg {
    pub msg_type: i32,
    /// The piece that is asked for or given.
    pub piece: i32,
    /// The size of all the metadata.
    pub total_size: Option<i32>,
}

/// A dictionary's entry with an integer, or none without one.
pub open spec fn optional_int_entry(key: Seq<char>, value: Option<int>) -> Seq<
    (Seq<u8>, Seq<u8>),
> {
    match value {
        Some(n) => seq![(ascii(key), bencode_int(n))],
        None => seq![],
    }
}

/// An optional `i32` as an integer.
pub open spec fn option_i32(value: Option<i32>) -> Option<int> {
    match value {
        Some(n) => Some(n as int),
        None => None,
    }
}

/// An optional `u32` as an integer.
pub open spec fn option_u32(value: Option<u32>) -> Option<int> {
    match value {
        Some(n) => Some(n as int),
        None => None,
    }
}

impl ExtMsg {
    /// The message in bencode.
    pub open spec fn encoded(self) -> Seq<u8> {
        bencode_dict(
            seq![
                (ascii("msg_type"@), bencode_int(self.msg_type as int)),
                (ascii("piece"@), bencode_int(self.piece as int)),
            ] + optional_int_entry("total_size"@, option_i32(self.total_size)),
        )
    }

    /// The message in bencode. An absent size leaves no entry.
    pub fn to_bytes(&self) -> (bytes: Vec<u8>)
        ensures
            bytes@ == self.encoded(),
    {
        proof {
            reveal_strlit("msg_type");
            reveal_strlit("piece");
            reveal_strlit("total_size");
            lemma_ascii_smaller("msg_type"@, "piece"@, 0);
            lemma_ascii_smaller("piece"@, "total_size"@, 0);
        }
        let mut entries: Vec<(Vec<u8>, Value)> = Vec::new();
        push_entry(&mut entries, "msg_type", int_value(self.msg_type as i64));
        push_entry(&mut entries, "piece", int_value(self.piece as i64));
        if let Some(total_size) = self.total_size {
            push_entry(&mut entries, "total_size", int_value(total_size as i64));
        }
        assert(entry_notations(entries@) =~= seq![
            (ascii("msg_type"@), bencode_int(self.msg_type as int)),
            (ascii("piece"@), bencode_int(self.piece as int)),
        ] + optional_int_entry("total_size"@, option_i32(self.total_size)));
        dict_bytes(entries)
    }
}

/// What a peer says of the extensions that it supports.
#[derive(Debug, Clone, Copy, PartialEq, Eq, Structural)]
pub struct ExtHandshake {
    /// The number under which the peer accepts metadata messages.
    pub ut_metadata: Option<i32>,
    /// The size of the torrent's metadata, if the peer has it.
    pub metadata_size: Option<u32>,
}

impl ExtHandshake {
    /// What is offered to a peer: metadata messages, and the size of the
    /// metadata if it is known.
    pub open spec fn offered(metadata_size: Option<u32>) -> ExtHandshake {
        ExtHandshake { ut_metadata: Some(METADATA_MESSAGE_ID), metadata_size }
    }

    /// The handshake in bencode: the dictionary of extensions under `m`.
    pub open spec fn encoded(self) -> Seq<u8> {
        bencode_dict(
            seq![
                (
                    ascii("m"@),
                    bencode_dict(optional_int_entry("ut_metadata"@, option_i32(self.ut_metadata))),
                ),
            ] + optional_int_entry("metadata_size"@, option_u32(self.metadata_size)),
        )
    }

    /// What is offered to a peer.
    pub fn offer(metadata_size: Option<u32>) -> (handshake: ExtHandshake)
        ensures
            handshake == ExtHandshake::offered(metadata_size),
    {
        ExtHandshake { ut_metadata: Some(METADATA_MESSAGE_ID), metadata_size }
    }

    /// The handshake in bencode. An absent size leaves no entry.
    pub fn to_bytes(&self) -> (bytes: Vec<u8>)
        ensures
            bytes@ == self.encoded(),
    {
        proof {
            reveal_strlit("m");
            reveal_strlit("ut_metadata");
            reveal_strlit("metadata_size");
            lemma_ascii_smaller("m"@, "metadata_size"@, 1);
        }
        let mut extensions: Vec<(Vec<u8>, Value)> = Vec::new();
        if let Some(id) = self.ut_metadata {
            push_entry(&mut extensions, "ut_metadata", int_value(id as i64));
        }
        assert(entry_notations(extensions@) =~= optional_int_entry(
            "ut_metadata"@,
            option_i32(self.ut_metadata),
        ));
        let mut entries: Vec<(Vec<u8>, Value)> = Vec::new();
        push_entry(&mut entries, "m", dict_value(extensions));
        if let Some(metadata_size) = self.metadata_size {
            push_entry(&mut entries, "metadata_size", int_value(metadata_size as i64));
        }
        assert(entry_notations(entries@) =~= seq![
            (
                ascii("m"@),
                bencode_dict(optional_int_entry("ut_metadata"@, option_i32(self.ut_metadata))),
            ),
        ] + optional_int_entry("metadata_size"@, option_u32(self.metadata_size)));
        dict_bytes(entries)
    }
}

/// An integer in a dictionary on the wire.
pub open spec fn int_field(key: Seq<char>, value: Option<int>) -> Seq<char> {
    match value {
        Some(n) => key + "i"@ + decimal(n) + "e"@,
        None => seq![],
    }
}

/// An integer under a key, as it stands on the wire.
proof fn lemma_int_entry(key: Seq<char>, marked: Seq<char>, n: int)
    requires
        marked == decimal_nat(key.len()) + seq![':'] + key,
    ensures
        bencode_bytes(ascii(key)) + bencode_int(n) == ascii(int_field(marked, Some(n))),
{
    reveal_strlit("i");
    reveal_strlit("e");
    assert(bencode_bytes(ascii(key)) =~= ascii(marked));
    assert("i"@ =~= seq!['i']);
    assert("e"@ =~= seq!['e']);
    assert(bencode_bytes(ascii(key)) + bencode_int(n) =~= ascii(int_field(marked, Some(n))));
}

proof fn lemma_letters(a: Seq<char>, b: Seq<char>, c: Seq<char>, d: Seq<char>, e: Seq<char>)
    ensures
        ascii(a + b + c + d + e) == ascii(a) + (ascii(b) + ascii(c) + ascii(d)) + ascii(e),
{
    assert(ascii(a + b + c + d + e) =~= ascii(a) + (ascii(b) + ascii(c) + ascii(d)) + ascii(e));
}

/// At most one integer entry, after others, as it stands on the wire.
pub proof fn lemma_optional_entry(
    entries: Seq<(Seq<u8>, Seq<u8>)>,
    key: Seq<char>,
    marked: Seq<char>,
    value: Option<int>,
)
    requires
        marked == decimal_nat(key.len()) + seq![':'] + key,
    ensures
        bencode_entries(entries + optional_int_entry(key, value)) == bencode_entries(entries)
            + ascii(int_field(marked, value)),
{
    match value {
        Some(n) => {
            assert(entries + optional_int_entry(key, value) =~= entries.push(
                (ascii(key), bencode_int(n)),
            ));
            lemma_entries_push(entries, ascii(key), bencode_int(n));
            lemma_int_entry(key, marked, n);
        },
        None => {
            assert(entries + optional_int_entry(key, value) =~= entries);
            assert(bencode_entries(entries) + ascii(int_field(marked, value)) =~= bencode_entries(
                entries,
            ));
        },
    }
}

/// A metadata message on the wire, letter by letter: its type, its piece, and
/// the size if there is one.
pub proof fn law_metadata_message_on_the_wire(message: ExtMsg)
    ensures
        message.encoded() == ascii(
            "d"@ + int_field("8:msg_type"@, Some(message.msg_type as int)) + int_field(
                "5:piece"@,
                Some(message.piece as int),
            ) + int_field("10:total_size"@, option_i32(message.total_size)) + "e"@,
        ),
{
    reveal_strlit("msg_type");
    reveal_strlit("piece");
    reveal_strlit("total_size");
    reveal_strlit("8:msg_type");
    reveal_strlit("5:piece");
    reveal_strlit("10:total_size");
    reveal_strlit("d");
    reveal_strlit("e");
    reveal_with_fuel(decimal_nat, 3);
    assert("8:msg_type"@ =~= decimal_nat(8) + seq![':'] + "msg_type"@);
    assert("5:piece"@ =~= decimal_nat(5) + seq![':'] + "piece"@);
    assert("10:total_size"@ =~= decimal_nat(10) + seq![':'] + "total_size"@);
    assert("d"@ =~= seq!['d']);
    assert("e"@ =~= seq!['e']);
    let kind = Some(message.msg_type as int);
    let piece = Some(message.piece as int);
    let size = option_i32(message.total_size);
    let none = Seq::<(Seq<u8>, Seq<u8>)>::empty();
    let one = none + optional_int_entry("msg_type"@, kind);
    let two = one + optional_int_entry("piece"@, piece);
    lemma_optional_entry(none, "msg_type"@, "8:msg_type"@, kind);
    lemma_optional_entry(one, "piece"@, "5:piece"@, piece);
    lemma_optional_entry(two, "total_size"@, "10:total_size"@, size);
    assert(two =~= seq![
        (ascii("msg_type"@), bencode_int(message.msg_type as int)),
        (ascii("piece"@), bencode_int(message.piece as int)),
    ]);
    assert(bencode_entries(none) + ascii(int_field("8:msg_type"@, kind)) =~= ascii(
        int_field("8:msg_type"@, kind),
    ));
    lemma_letters(
        "d"@,
        int_field("8:msg_type"@, kind),
        int_field("5:piece"@, piece),
        int_field("10:total_size"@, size),
        "e"@,
    );
}

/// A handshake of the extension protocol on the wire, letter by letter: the
/// number for metadata messages under `m`, and the size if there is one.
pub proof fn law_extensions_on_the_wire(handshake: ExtHandshake)
    ensures
        handshake.encoded() == ascii(
            "d1:md"@ + int_field("11:ut_metadata"@, option_i32(handshake.ut_metadata)) + "e"@
                + int_field("13:metadata_size"@, option_u32(handshake.metadata_size)) + "e"@,
        ),
{
    reveal_strlit("m");
    reveal_strlit("ut_metadata");
    reveal_strlit("metadata_size");
    reveal_strlit("11:ut_metadata");
    reveal_strlit("13:metadata_size");
    reveal_strlit("d1:md");
    reveal_strlit("e");
    reveal_with_fuel(decimal_nat, 3);
    assert("11:ut_metadata"@ =~= decimal_nat(11) + seq![':'] + "ut_metadata"@);
    assert("13:metadata_size"@ =~= decimal_nat(13) + seq![':'] + "metadata_size"@);
    assert("e"@ =~= seq!['e']);
    let number = option_i32(handshake.ut_metadata);
    let size = option_u32(handshake.metadata_size);
    let none = Seq::<(Seq<u8>, Seq<u8>)>::empty();
    let inner = optional_int_entry("ut_metadata"@, number);
    let one = none.push((ascii("m"@), bencode_dict(inner)));
    lemma_optional_entry(none, "ut_metadata"@, "11:ut_metadata"@, number);
    assert(none + inner =~= inner);
    let numbered = ascii(int_field("11:ut_metadata"@, number));
    let sized = ascii(int_field("13:metadata_size"@, size));
    assert(bencode_entries(inner) =~= numbered);
    lemma_entries_push(none, ascii("m"@), bencode_dict(inner));
    lemma_optional_entry(one, "metadata_size"@, "13:metadata_size"@, size);
    assert(one =~= seq![(ascii("m"@), bencode_dict(inner))]);
    lemma_letters(
        "d1:md"@,
        int_field("11:ut_metadata"@, number),
        "e"@,
        int_field("13:metadata_size"@, size),
        "e"@,
    );
    let open = ascii(seq!['d']);
    let close = ascii(seq!['e']);
    let key = bencode_bytes(ascii("m"@));
    assert(open + key + open =~= ascii("d1:md"@));
    assert(open + (Seq::<u8>::empty() + (key + (open + numbered + close)) + sized) + close =~= (open
        + key + open) + (numbered + close + sized) + close);
}

/// What is offered to a peer is the number one for metadata messages, and the
/// size as it is.
pub proof fn law_offer(metadata_size: Option<u32>)
    ensures
        ExtHandshake::offered(metadata_size).ut_metadata == Some(1i32),
        ExtHandshake::offered(metadata_size).metadata_size == metadata_size,
        METADATA_REQUEST == 0,
        METADATA_DATA == 1,
        HANDSHAKE_MESSAGE_ID == 0,
{
}

} // verus!
