//! What a torrent file says of a torrent.
use serde_bencode::value::Value;
use vstd::prelude::*;

use crate::bencode::{
    ascii, bencode_bytes, bencode_dict, bencode_int, bytes_value, dict_bytes, entry_notations,
    int_value, lemma_ascii_concat, lemma_ascii_smaller, lemma_entries_push, push_entry,
};
use crate::bytes::copy_range;
use crate::extension::{int_field, lemma_optional_entry, optional_int_entry};
use crate::text::decimal_nat;

verus! {

/// The description of a torrent: one file, cut into pieces.
#[derive(Debug, PartialEq)]
pub struct BencodeInfo {
    /// The SHA-1 digests of the pieces, one after the other.
    pub pieces: Vec<u8>,
    /// The length of every piece but the last.
    pub piece_len: i64,
    /// The length of the file.
    pub length: Option<i64>,
    /// The name of the file.
    pub name: String,
    /// Whether peers come from trackers only.
    pub private: Option<u8>,
}

/// A torrent file.
#[derive(Debug, PartialEq)]
pub struct BencodeTorrent {
    /// The description of the torrent.
    pub info: BencodeInfo,
    /// The address of the tracker.
    pub announce: Option<String>,
}

/// A description with its contents as sequences.
#[verifier::ext_equal]
pub struct InfoView {
    pub pieces: Seq<u8>,
    pub piece_len: i64,
    pub length: Option<i64>,
    pub name: Seq<char>,
    pub private: Option<u8>,
}

impl View for BencodeInfo {
    type V = InfoView;

    open spec fn view(&self) -> InfoView {
        InfoView {
            pieces: self.pieces@,
            piece_len: self.piece_len,
            length: self.length,
            name: self.name@,
            private: self.private,
        }
    }
}

/// The digest of piece `i`, if `pieces` holds digests one after the other.
pub open spec fn digest_at(pieces: Seq<u8>, i: nat) -> Seq<u8> {
    pieces.subrange(20 * i as int, 20 * i as int + 20)
}

impl Clone for BencodeInfo {
    fn clone(&self) -> (copy: BencodeInfo)
        ensures
            copy@ == self@,
            copy.pieces@ == self.pieces@,
            copy.piece_len == self.piece_len,
            copy.length == self.length,
            copy.name@ == self.name@,
            copy.private == self.private,
    {
        let copy = BencodeInfo {
            pieces: copy_range(self.pieces.as_slice(), 0, self.pieces.len()),
            piece_len: self.piece_len,
            length: self.length,
            name: self.name.clone(),
            private: self.private,
        };
        assert(copy@ =~= self@);
        copy
    }
}

impl InfoView {
    /// The entries of the description in bencode. What is absent leaves no entry.
    pub open spec fn entries(self) -> Seq<(Seq<u8>, Seq<u8>)> {
        optional_int_entry(
            "length"@,
            match self.length {
                Some(n) => Some(n as int),
                None => None,
            },
        ) + seq![
            (ascii("name"@), bencode_bytes(vstd::utf8::encode_utf8(self.name))),
            (ascii("piece length"@), bencode_int(self.piece_len as int)),
            (ascii("pieces"@), bencode_bytes(self.pieces)),
        ] + optional_int_entry(
            "private"@,
            match self.private {
                Some(n) => Some(n as int),
                None => None,
            },
        )
    }

    /// The description in bencode.
    pub open spec fn encoded(self) -> Seq<u8> {
        bencode_dict(self.entries())
    }

    /// The number of pieces.
    pub open spec fn piece_count(self) -> nat {
        self.pieces.len() / 20
    }

    /// The SHA-1 digest of piece `i`.
    pub open spec fn piece_hash(self, i: nat) -> Seq<u8> {
        digest_at(self.pieces, i)
    }
}

impl BencodeInfo {
    /// The description in bencode, with its keys in order.
    pub fn to_bytes(&self) -> (bytes: Vec<u8>)
        ensures
            bytes@ == self@.encoded(),
            bytes@ == (InfoView {
                pieces: self.pieces@,
                piece_len: self.piece_len,
                length: self.length,
                name: self.name@,
                private: self.private,
            }).encoded(),
    {
        proof {
            reveal_strlit("length");
            reveal_strlit("name");
            reveal_strlit("piece length");
            reveal_strlit("pieces");
            reveal_strlit("private");
            lemma_ascii_smaller("length"@, "name"@, 0);
            lemma_ascii_smaller("name"@, "piece length"@, 0);
            lemma_ascii_smaller("piece length"@, "pieces"@, 5);
            lemma_ascii_smaller("pieces"@, "private"@, 1);
        }
        let mut entries: Vec<(Vec<u8>, Value)> = Vec::new();
        if let Some(length) = self.length {
            push_entry(&mut entries, "length", int_value(length));
        }
        push_entry(&mut entries, "name", bytes_value(self.name.as_str().as_bytes_vec()));
        push_entry(&mut entries, "piece length", int_value(self.piece_len));
        let pieces = copy_range(self.pieces.as_slice(), 0, self.pieces.len());
        assert(pieces@ =~= self.pieces@);
        push_entry(&mut entries, "pieces", bytes_value(pieces));
        if let Some(private) = self.private {
            push_entry(&mut entries, "private", int_value(private as i64));
        }
        assert(entry_notations(entries@) =~= self@.entries());
        dict_bytes(entries)
    }
}

/// A description on the wire, piece by piece: the length if there is one, the
/// name, the length of the pieces, their digests, and whether it is private if
/// that is said.
pub proof fn law_description_on_the_wire(info: InfoView)
    ensures
        info.encoded() == ascii(
            "d"@ + int_field(
                "6:length"@,
                match info.length {
                    Some(n) => Some(n as int),
                    None => None,
                },
            ) + "4:name"@,
        ) + bencode_bytes(vstd::utf8::encode_utf8(info.name)) + ascii(
            int_field("12:piece length"@, Some(info.piece_len as int)) + "6:pieces"@,
        ) + bencode_bytes(info.pieces) + ascii(
            int_field(
                "7:private"@,
                match info.private {
                    Some(n) => Some(n as int),
                    None => None,
                },
            ) + "e"@,
        ),
{
    reveal_strlit("length");
    reveal_strlit("name");
    reveal_strlit("piece length");
    reveal_strlit("pieces");
    reveal_strlit("private");
    reveal_strlit("6:length");
    reveal_strlit("4:name");
    reveal_strlit("12:piece length");
    reveal_strlit("6:pieces");
    reveal_strlit("7:private");
    reveal_strlit("d");
    reveal_strlit("e");
    reveal_with_fuel(decimal_nat, 3);
    assert("6:length"@ =~= decimal_nat(6) + seq![':'] + "length"@);
    assert("4:name"@ =~= decimal_nat(4) + seq![':'] + "name"@);
    assert("12:piece length"@ =~= decimal_nat(12) + seq![':'] + "piece length"@);
    assert("6:pieces"@ =~= decimal_nat(6) + seq![':'] + "pieces"@);
    assert("7:private"@ =~= decimal_nat(7) + seq![':'] + "private"@);
    assert("d"@ =~= seq!['d']);
    assert("e"@ =~= seq!['e']);
    let name = bencode_bytes(vstd::utf8::encode_utf8(info.name));
    let size = Some(info.piece_len as int);
    let digests = bencode_bytes(info.pieces);
    let length = match info.length {
        Some(n) => Some(n as int),
        None => None,
    };
    let private = match info.private {
        Some(n) => Some(n as int),
        None => None,
    };
    let none = Seq::<(Seq<u8>, Seq<u8>)>::empty();
    let first = none + optional_int_entry("length"@, length);
    let second = first.push((ascii("name"@), name));
    let third = second + optional_int_entry("piece length"@, size);
    let fourth = third.push((ascii("pieces"@), digests));
    lemma_optional_entry(none, "length"@, "6:length"@, length);
    lemma_entries_push(first, ascii("name"@), name);
    lemma_optional_entry(second, "piece length"@, "12:piece length"@, size);
    lemma_entries_push(third, ascii("pieces"@), digests);
    lemma_optional_entry(fourth, "private"@, "7:private"@, private);
    assert(info.entries() =~= fourth + optional_int_entry("private"@, private));
    assert(bencode_bytes(ascii("name"@)) =~= ascii("4:name"@));
    assert(bencode_bytes(ascii("pieces"@)) =~= ascii("6:pieces"@));
    lemma_ascii_concat("d"@ + int_field("6:length"@, length), "4:name"@);
    lemma_ascii_concat("d"@, int_field("6:length"@, length));
    lemma_ascii_concat(int_field("12:piece length"@, size), "6:pieces"@);
    lemma_ascii_concat(int_field("7:private"@, private), "e"@);
    lemma_regrouped(
        ascii("d"@),
        ascii(int_field("6:length"@, length)),
        ascii("4:name"@),
        name,
        ascii(int_field("12:piece length"@, size)),
        ascii("6:pieces"@),
        digests,
        ascii(int_field("7:private"@, private)),
        ascii("e"@),
    );
}

proof fn lemma_regrouped(
    open: Seq<u8>,
    length: Seq<u8>,
    name_key: Seq<u8>,
    name: Seq<u8>,
    size: Seq<u8>,
    digests_key: Seq<u8>,
    digests: Seq<u8>,
    private: Seq<u8>,
    close: Seq<u8>,
)
    ensures
        open + (Seq::<u8>::empty() + length + (name_key + name) + size + (digests_key + digests)
            + private) + close == (open + length + name_key) + name + (size + digests_key) + digests
            + (private + close),
{
    assert(open + (Seq::<u8>::empty() + length + (name_key + name) + size + (digests_key + digests)
        + private) + close =~= (open + length + name_key) + name + (size + digests_key) + digests + (
    private + close));
}

/// There are as many pieces as there are whole digests, and each digest is
/// twenty bytes, where those before it end.
pub proof fn law_pieces_are_counted(info: InfoView, i: nat)
    ensures
        20 * info.piece_count() <= info.pieces.len() < 20 * info.piece_count() + 20,
        i < info.piece_count() ==> {
            &&& info.piece_hash(i).len() == 20
            &&& forall|j: int|
                0 <= j < 20 ==> #[trigger] info.piece_hash(i)[j] == info.pieces[20 * i + j]
        },
{
}

/// The model of a description has all that the description has.
pub proof fn law_description_is_modelled(info: BencodeInfo)
    ensures
        info@.pieces == info.pieces@,
        info@.piece_len == info.piece_len,
        info@.length == info.length,
        info@.name == info.name@,
        info@.private == info.private,
{
}

} // verus!
