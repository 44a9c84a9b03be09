//! Torrents: where they come from, and how peers and trackers are told of them.
use bit_vec::BitVec;
use vstd::prelude::*;

use crate::bits::{bits_of, equal_bits, no_bits, set_all_bits};
use crate::bytes::push_bytes;
use crate::chunks::{chunk, chunk_count, chunk_start, lemma_chunk_count, lemma_chunk_step};
use crate::digest::{sha1, sha1_digest};
use crate::metainfo::{digest_at, BencodeInfo, BencodeTorrent, InfoView};
use crate::text::{
    decimal, hex_bytes, hex_decode_to_slice, hex_digit, hex_encode, hex_text, int_text,
    is_alphanumeric, is_hex, law_hex_is_positional, lemma_hex_round_trip,
    lemma_percent_alphanumeric, occurs_at, percent_encode, percent_text, split_once,
};

verus! {

/// The length of the pieces into which a file is cut.
pub const PIECE_LEN: usize = 262144;

/// The port that trackers are told.
pub const TRACKER_PORT: i64 = 8080;

/// A torrent of a single file. It is not copied: those who work on it share it,
/// so that what one learns of it shows to all.
#[derive(Debug)]
pub struct Torrent {
    /// The description of the torrent, if it is known.
    pub metadata: Option<BencodeInfo>,
    /// The address of the tracker.
    pub announce: Option<String>,
    /// The SHA-1 digest of the description.
    pub info_hash: [u8; 20],
    /// The pieces that this side has.
    pub bitfield: BitVec,
}

/// A torrent with its contents as sequences.
#[verifier::ext_equal]
pub struct TorrentView {
    pub metadata: Option<InfoView>,
    pub announce: Option<Seq<char>>,
    pub info_hash: Seq<u8>,
    pub bits: Seq<bool>,
}

/// An optional text as a sequence.
pub open spec fn text_view(text: Option<String>) -> Option<Seq<char>> {
    match text {
        Some(text) => Some(text@),
        None => None,
    }
}

impl View for Torrent {
    type V = TorrentView;

    open spec fn view(&self) -> TorrentView {
        TorrentView {
            metadata: match self.metadata {
                Some(info) => Some(info@),
                None => None,
            },
            announce: text_view(self.announce),
            info_hash: self.info_hash@,
            bits: bits_of(self.bitfield),
        }
    }
}

/// A bit field of which no bit is set.
pub open spec fn unset_bits(count: nat) -> Seq<bool> {
    Seq::new(count, |i: int| false)
}

/// Whether `pieces` holds the digests of the chunks of `file`, one after the
/// other.
pub open spec fn holds_digests(pieces: Seq<u8>, file: Seq<u8>, size: nat) -> bool {
    &&& pieces.len() == 20 * chunk_count(file.len(), size)
    &&& forall|i: nat|
        i < chunk_count(file.len(), size) ==> #[trigger] sha1_digest(chunk(file, size, i))
            == digest_at(pieces, i)
}

/// Whether a description is that of a file: cut into pieces of `PIECE_LEN`
/// bytes, with their digests, the file's length and its name.
pub open spec fn describes(info: InfoView, name: Seq<char>, file: Seq<u8>) -> bool {
    &&& holds_digests(info.pieces, file, PIECE_LEN as nat)
    &&& info.piece_len == PIECE_LEN
    &&& info.length == Some(file.len() as i64)
    &&& info.name == name
    &&& info.private is None
}

/// Whether a description is that of a file, whatever the length of the pieces:
/// it holds the file's length and the digests of its pieces.
pub open spec fn describes_file(info: InfoView, file: Seq<u8>) -> bool {
    &&& info.piece_len > 0
    &&& info.length == Some(file.len() as i64)
    &&& holds_digests(info.pieces, file, info.piece_len as nat)
}

/// The description that is made for a file is that of the file.
pub proof fn law_own_description_describes_file(info: InfoView, name: Seq<char>, file: Seq<u8>)
    requires
        describes(info, name, file),
    ensures
        describes_file(info, file),
{
}

/// Whether `part` stands in `text` first at `at`.
pub open spec fn first_at(text: Seq<char>, part: Seq<char>, at: int) -> bool {
    &&& occurs_at(text, part, at)
    &&& forall|j: int| j < at ==> !#[trigger] occurs_at(text, part, j)
}

/// The info hash that a magnet link names: the forty hexadecimal digits that
/// follow the first `xt=urn:btih:` and end the link.
pub open spec fn linked_hash(link: Seq<char>) -> Option<Seq<u8>> {
    if exists|at: int| first_at(link, "xt=urn:btih:"@, at) {
        let at = choose|at: int| first_at(link, "xt=urn:btih:"@, at);
        let rest = link.skip(at + "xt=urn:btih:"@.len());
        if is_hex(rest, 20) {
            Some(hex_bytes(rest))
        } else {
            None
        }
    } else {
        None
    }
}

/// The magnet link for an info hash.
pub open spec fn magnet_link(info_hash: Seq<u8>) -> Seq<char> {
    "xt=urn:btih:"@ + hex_text(info_hash)
}

/// The address under which a tracker is told of this side and asked for peers.
pub open spec fn tracker_url(
    announce: Seq<char>,
    info_hash: Seq<u8>,
    left: int,
    peer_id: Seq<u8>,
    port: int,
) -> Seq<char> {
    announce + "?compact=1&downloaded=0&info_hash="@ + percent_text(info_hash) + "&left="@
        + decimal(left) + "&peer_id="@ + percent_text(peer_id) + "&port="@ + decimal(port)
        + "&uploaded=0"@
}

impl TorrentView {
    /// The torrent that a torrent file describes.
    pub open spec fn of_torrent_file(info: InfoView, announce: Option<Seq<char>>) -> TorrentView {
        TorrentView {
            metadata: Some(info),
            announce,
            info_hash: sha1_digest(info.encoded()),
            bits: unset_bits(info.piece_count()),
        }
    }

    /// The torrent of which `info` is the description, and `metadata` the form
    /// in which it was received.
    pub open spec fn of_metadata(metadata: Seq<u8>, info: InfoView) -> TorrentView {
        TorrentView {
            metadata: Some(info),
            announce: None,
            info_hash: sha1_digest(metadata),
            bits: unset_bits(info.piece_count()),
        }
    }

    /// The torrent with a given info hash, of which nothing else is known.
    pub open spec fn of_info_hash(info_hash: Seq<u8>) -> TorrentView {
        TorrentView { metadata: None, announce: None, info_hash, bits: seq![] }
    }

    /// What is told to peers of the size of the description, modulo 2^32.
    pub open spec fn metadata_size(self) -> Option<u32> {
        match self.metadata {
            Some(info) => Some((info.encoded().len() % 0x1_0000_0000) as u32),
            None => None,
        }
    }
}

proof fn lemma_first_at_unique(link: Seq<char>, part: Seq<char>, a: int, b: int)
    requires
        first_at(link, part, a),
        first_at(link, part, b),
    ensures
        a == b,
{
    if a < b {
        assert(!occurs_at(link, part, a));
    }
    if b < a {
        assert(!occurs_at(link, part, b));
    }
}

proof fn lemma_link_marker(prefix: Seq<char>, text: Seq<char>)
    requires
        forall|i: int| !occurs_at(prefix, "xt=urn:btih:"@, i),
    ensures
        ({
            let link = prefix + "xt=urn:btih:"@ + text;
            let at = choose|at: int| first_at(link, "xt=urn:btih:"@, at);
            &&& exists|at: int| first_at(link, "xt=urn:btih:"@, at)
            &&& link.skip(at + "xt=urn:btih:"@.len()) == text
        }),
{
    let marker = "xt=urn:btih:"@;
    let link = prefix + marker + text;
    let at = prefix.len() as int;
    reveal_strlit("xt=urn:btih:");
    assert(link.subrange(at, at + marker.len()) =~= marker);
    assert forall|j: int| j < at implies !#[trigger] occurs_at(link, marker, j) by {
        if occurs_at(link, marker, j) {
            if j + marker.len() <= at {
                assert(prefix.subrange(j, j + marker.len()) =~= link.subrange(
                    j,
                    j + marker.len(),
                ));
                assert(occurs_at(prefix, marker, j));
            } else {
                assert(link[at] == marker[0]);
                assert(link.subrange(j, j + marker.len())[at - j] == link[at]);
                assert(marker[at - j] == 'x');
            }
        }
    }
    assert(first_at(link, marker, at));
    let chosen = choose|at: int| first_at(link, "xt=urn:btih:"@, at);
    lemma_first_at_unique(link, marker, at, chosen);
    assert(link.skip(at + marker.len()) =~= text);
}

/// A magnet link leads back to the info hash that it was made from, whatever
/// address it was appended to, as long as that address holds no such link
/// itself.
pub proof fn law_magnet_link_round_trip(prefix: Seq<char>, info_hash: Seq<u8>)
    requires
        info_hash.len() == 20,
        forall|i: int| !occurs_at(prefix, "xt=urn:btih:"@, i),
    ensures
        linked_hash(prefix + magnet_link(info_hash)) == Some(info_hash),
{
    lemma_link_marker(prefix, hex_text(info_hash));
    assert(prefix + magnet_link(info_hash) =~= prefix + "xt=urn:btih:"@ + hex_text(info_hash));
    lemma_hex_round_trip(info_hash);
}

/// What follows the first `xt=urn:btih:` in a link is read as it is: it names
/// an info hash if it is forty hexadecimal digits, and none otherwise. A link
/// without `xt=urn:btih:` names none.
pub proof fn law_link_is_read(prefix: Seq<char>, text: Seq<char>)
    requires
        forall|i: int| !occurs_at(prefix, "xt=urn:btih:"@, i),
    ensures
        is_hex(text, 20) ==> linked_hash(prefix + "xt=urn:btih:"@ + text) == Some(hex_bytes(text)),
        !is_hex(text, 20) ==> linked_hash(prefix + "xt=urn:btih:"@ + text) is None,
        linked_hash(prefix) is None,
{
    lemma_link_marker(prefix, text);
}

/// A magnet link is the digits of the info hash, two for each byte, after
/// `xt=urn:btih:`.
pub proof fn law_magnet_link_holds_digits(info_hash: Seq<u8>, i: int)
    requires
        0 <= i < info_hash.len(),
    ensures
        magnet_link(info_hash).len() == 12 + 2 * info_hash.len(),
        magnet_link(info_hash).take(12) == "xt=urn:btih:"@,
        magnet_link(info_hash)[12 + 2 * i] == hex_digit(info_hash[i] as int / 16),
        magnet_link(info_hash)[13 + 2 * i] == hex_digit(info_hash[i] as int % 16),
{
    reveal_strlit("xt=urn:btih:");
    assert(magnet_link(info_hash).take(12) =~= "xt=urn:btih:"@);
    law_hex_is_positional(info_hash, seq![], i);
}

/// A description that was received as it is written in bencode makes the
/// torrent that its torrent file makes, but for the tracker.
pub proof fn law_metadata_makes_same_torrent(info: InfoView)
    ensures
        TorrentView::of_metadata(info.encoded(), info) == TorrentView::of_torrent_file(
            info,
            None,
        ),
{
}

/// A peer id of letters and digits stands in a tracker's address as it is.
pub proof fn law_peer_id_is_verbatim(
    announce: Seq<char>,
    info_hash: Seq<u8>,
    left: int,
    peer_id: Seq<u8>,
    port: int,
)
    requires
        forall|i: int| 0 <= i < peer_id.len() ==> is_alphanumeric(#[trigger] peer_id[i]),
    ensures
        tracker_url(announce, info_hash, left, peer_id, port) == announce
            + "?compact=1&downloaded=0&info_hash="@ + percent_text(info_hash) + "&left="@
            + decimal(left) + "&peer_id="@ + Seq::new(
            peer_id.len(),
            |i: int| peer_id[i] as char,
        ) + "&port="@ + decimal(port) + "&uploaded=0"@,
{
    lemma_percent_alphanumeric(peer_id);
}

/// The info hash that a magnet link names, if it names one.
pub fn magnet_info_hash(magnet: &str) -> (info_hash: Option<[u8; 20]>)
    ensures
        match info_hash {
            Some(hash) => linked_hash(magnet@) == Some(hash@),
            None => linked_hash(magnet@) is None,
        },
{
    let marker = "xt=urn:btih:";
    match split_once(magnet, marker) {
        Some((before, rest)) => {
            proof {
                let at = before@.len() as int;
                assert(magnet@.subrange(at, at + marker@.len()) =~= marker@);
                assert(first_at(magnet@, marker@, at));
                let chosen = choose|at: int| first_at(magnet@, "xt=urn:btih:"@, at);
                lemma_first_at_unique(magnet@, marker@, at, chosen);
                assert(magnet@.skip(at + marker@.len()) =~= rest@);
            }
            let mut info_hash: [u8; 20] = [0u8; 20];
            match hex_decode_to_slice(rest, &mut info_hash) {
                Ok(()) => Some(info_hash),
                Err(_) => None,
            }
        },
        None => None,
    }
}

/// The bit field of a torrent of which nothing has been downloaded.
fn empty_bitfield(info: &BencodeInfo) -> (bitfield: BitVec)
    ensures
        bits_of(bitfield) == unset_bits(info@.piece_count()),
{
    let bitfield = equal_bits(info.pieces.len() / 20, false);
    assert(bits_of(bitfield) =~= unset_bits(info@.piece_count()));
    bitfield
}

impl Torrent {
    /// The torrent that a torrent file describes.
    pub fn from_torrent_file(torrent: BencodeTorrent) -> (result: Torrent)
        ensures
            result@ == TorrentView::of_torrent_file(torrent.info@, text_view(torrent.announce)),
            result.announce == torrent.announce,
            result.metadata == Some(torrent.info),
    {
        let info_hash = sha1(torrent.info.to_bytes().as_slice());
        let bitfield = empty_bitfield(&torrent.info);
        Torrent { metadata: Some(torrent.info), announce: torrent.announce, info_hash, bitfield }
    }

    /// The torrent of which `info` is the description, and `metadata` the form
    /// in which it was received.
    pub fn from_metadata(metadata: Vec<u8>, info: BencodeInfo) -> (result: Torrent)
        ensures
            result@ == TorrentView::of_metadata(metadata@, info@),
            result.metadata == Some(info),
            result.announce is None,
    {
        let info_hash = sha1(metadata.as_slice());
        let bitfield = empty_bitfield(&info);
        Torrent { metadata: Some(info), announce: None, info_hash, bitfield }
    }

    /// The torrent with a given info hash, of which nothing else is known.
    pub fn from_info_hash(bytes: [u8; 20]) -> (result: Torrent)
        ensures
            result@ == TorrentView::of_info_hash(bytes@),
            result.info_hash == bytes,
            result.metadata is None,
            result.announce is None,
    {
        Torrent { metadata: None, announce: None, info_hash: bytes, bitfield: no_bits() }
    }

    /// The torrent that a magnet link names.
    pub fn from_magnet_link(magnet: &str) -> (result: Torrent)
        requires
            linked_hash(magnet@) is Some,
        ensures
            result@ == TorrentView::of_info_hash(linked_hash(magnet@)->0),
    {
        Self::from_info_hash(magnet_info_hash(magnet).unwrap())
    }

    /// A torrent for a file: it is cut into pieces, and its description holds
    /// their digests.
    pub fn from_file(filename: String, file: Vec<u8>) -> (result: Torrent)
        ensures
            result@.metadata is Some,
            result@ == TorrentView::of_torrent_file(result@.metadata->0, None),
            describes(result@.metadata->0, filename@, file@),
    {
        let ghost size = PIECE_LEN as nat;
        let ghost len = file@.len();
        let total: usize = file.len();
        let mut pieces: Vec<u8> = Vec::new();
        let mut at: usize = 0;
        let ghost mut i: nat = 0;
        while at < total
            invariant
                size == PIECE_LEN,
                len == file@.len(),
                at == chunk_start(len, size, i),
                i <= chunk_count(len, size),
                pieces@.len() == 20 * i,
                forall|j: nat|
                    j < i ==> #[trigger] sha1_digest(chunk(file@, size, j)) == digest_at(pieces@, j),
                len == total,
            decreases len - at,
        {
            proof {
                lemma_chunk_step(len, size, i);
                lemma_chunk_count(len, size, i);
            }
            let end: usize = if total - at > PIECE_LEN {
                at + PIECE_LEN
            } else {
                total
            };
            let digest = sha1(vstd::slice::slice_subrange(file.as_slice(), at, end));
            let ghost before = pieces@;
            push_bytes(&mut pieces, &digest);
            proof {
                assert(digest_at(pieces@, i) =~= digest@);
                assert forall|j: nat| j < i + 1 implies #[trigger] sha1_digest(
                    chunk(file@, size, j),
                ) == digest_at(pieces@, j) by {
                    if j < i {
                        assert(digest_at(pieces@, j) =~= digest_at(before, j));
                    }
                }
                i = i + 1;
            }
            at = end;
        }
        proof {
            lemma_chunk_step(len, size, i);
            lemma_chunk_count(len, size, i);
        }
        let info = BencodeInfo {
            pieces,
            piece_len: PIECE_LEN as i64,
            length: Some(
                #[verifier::truncate]
                (total as i64),
            ),
            name: filename,
            private: None,
        };
        Self::from_torrent_file(BencodeTorrent { info, announce: None })
    }

    /// The address under which the tracker is told of this side and asked for
    /// peers.
    pub fn build_tracker_url(&self, peer_id: &[u8; 20], port: i64) -> (url: String)
        requires
            self.metadata matches Some(info) && info.length is Some,
            self.announce is Some,
        ensures
            url@ == tracker_url(
                self.announce->0@,
                self.info_hash@,
                self.metadata->0.length->0 as int,
                peer_id@,
                port as int,
            ),
    {
        let announce = self.announce.as_ref().unwrap();
        let length: i64 = self.metadata.as_ref().unwrap().length.unwrap();
        let mut url = announce.as_str().to_owned();
        url.append("?compact=1&downloaded=0&info_hash=");
        url.append(percent_encode(&self.info_hash).as_str());
        url.append("&left=");
        url.append(int_text(length).as_str());
        url.append("&peer_id=");
        url.append(percent_encode(peer_id).as_str());
        url.append("&port=");
        url.append(int_text(port).as_str());
        url.append("&uploaded=0");
        url
    }

    /// The magnet link of the torrent.
    pub fn build_magnet_link(&self) -> (link: String)
        ensures
            link@ == magnet_link(self.info_hash@),
    {
        let mut link = "xt=urn:btih:".to_owned();
        link.append(hex_encode(&self.info_hash).as_str());
        link
    }

    /// What peers are told of the size of the description.
    pub fn metadata_size(&self) -> (size: Option<u32>)
        ensures
            size == self@.metadata_size(),
    {
        match &self.metadata {
            Some(info) => {
                let len: u64 = info.to_bytes().len() as u64;
                proof {
                    assert(len as u32 == len % 0x1_0000_0000) by (bit_vector);
                }
                Some(
                    #[verifier::truncate]
                    (len as u32),
                )
            },
            None => None,
        }
    }

    /// Notes that this side has all pieces.
    pub fn set_complete(&mut self)
        ensures
            final(self)@ == (TorrentView {
                bits: Seq::new(old(self)@.bits.len(), |i: int| true),
                ..old(self)@
            }),
            final(self).metadata == old(self).metadata,
            final(self).announce == old(self).announce,
            final(self).info_hash == old(self).info_hash,
            bits_of(final(self).bitfield).len() == bits_of(old(self).bitfield).len(),
            !bits_of(final(self).bitfield).contains(false),
    {
        set_all_bits(&mut self.bitfield);
    }
}

/// A query as it stands in an address: names with their values, in the order
/// given, and `&` between them.
pub open spec fn query(fields: Seq<(Seq<char>, Seq<char>)>) -> Seq<char>
    decreases fields.len(),
{
    if fields.len() == 0 {
        seq![]
    } else {
        let field = fields.last().0 + seq!['='] + fields.last().1;
        if fields.len() == 1 {
            field
        } else {
            query(fields.drop_last()) + seq!['&'] + field
        }
    }
}

proof fn lemma_query_push(fields: Seq<(Seq<char>, Seq<char>)>, name: Seq<char>, value: Seq<char>)
    requires
        fields.len() > 0,
    ensures
        query(fields.push((name, value))) == query(fields) + (seq!['&'] + name + seq!['='] + value),
{
    assert(fields.push((name, value)).drop_last() =~= fields);
    assert(query(fields) + seq!['&'] + (name + seq!['='] + value) =~= query(fields) + (seq!['&']
        + name + seq!['='] + value));
}

/// What a tracker is told of this side, by name.
pub open spec fn tracker_fields(
    info_hash: Seq<u8>,
    left: int,
    peer_id: Seq<u8>,
    port: int,
) -> Seq<(Seq<char>, Seq<char>)> {
    seq![
        ("compact"@, "1"@),
        ("downloaded"@, "0"@),
        ("info_hash"@, percent_text(info_hash)),
        ("left"@, decimal(left)),
        ("peer_id"@, percent_text(peer_id)),
        ("port"@, decimal(port)),
        ("uploaded"@, "0"@),
    ]
}

/// A tracker's address is the one that was announced with a query after it,
/// which tells of this side by name.
pub proof fn law_tracker_is_told_by_name(
    announce: Seq<char>,
    info_hash: Seq<u8>,
    left: int,
    peer_id: Seq<u8>,
    port: int,
)
    ensures
        tracker_url(announce, info_hash, left, peer_id, port) == announce + seq!['?'] + query(
            tracker_fields(info_hash, left, peer_id, port),
        ),
{
    let hash = percent_text(info_hash);
    let rest = decimal(left);
    let id = percent_text(peer_id);
    let number = decimal(port);
    let one = seq![("compact"@, "1"@)];
    let two = one.push(("downloaded"@, "0"@));
    let three = two.push(("info_hash"@, hash));
    let four = three.push(("left"@, rest));
    let five = four.push(("peer_id"@, id));
    let six = five.push(("port"@, number));
    lemma_query_push(one, "downloaded"@, "0"@);
    lemma_query_push(two, "info_hash"@, hash);
    lemma_query_push(three, "left"@, rest);
    lemma_query_push(four, "peer_id"@, id);
    lemma_query_push(five, "port"@, number);
    lemma_query_push(six, "uploaded"@, "0"@);
    assert(tracker_fields(info_hash, left, peer_id, port) =~= six.push(("uploaded"@, "0"@)));
    assert(query(one) == "compact"@ + seq!['='] + "1"@);
    lemma_query_literals();
    lemma_regrouped(
        announce,
        seq!['?'],
        "compact"@ + seq!['='] + "1"@,
        seq!['&'] + "downloaded"@ + seq!['='] + "0"@,
        seq!['&'] + "info_hash"@ + seq!['='],
        hash,
        "&left="@,
        rest,
        "&peer_id="@,
        id,
        "&port="@,
        number,
        "&uploaded=0"@,
    );
}

proof fn lemma_regrouped(
    announce: Seq<char>,
    mark: Seq<char>,
    first: Seq<char>,
    second: Seq<char>,
    hash_key: Seq<char>,
    hash: Seq<char>,
    left_key: Seq<char>,
    left: Seq<char>,
    id_key: Seq<char>,
    id: Seq<char>,
    port_key: Seq<char>,
    port: Seq<char>,
    last: Seq<char>,
)
    ensures
        announce + (mark + first + second + hash_key) + hash + left_key + left + id_key + id
            + port_key + port + last == announce + mark + (first + second + (hash_key + hash) + (
        left_key + left) + (id_key + id) + (port_key + port) + last),
{
    let start = announce + (mark + first + second + hash_key) + hash;
    let begun = first + second + (hash_key + hash);
    assert(start =~= announce + mark + begun);
    assert(start + left_key + left =~= announce + mark + (begun + (left_key + left)));
    let more = begun + (left_key + left);
    assert(announce + mark + more + id_key + id =~= announce + mark + (more + (id_key + id)));
    let most = more + (id_key + id);
    assert(announce + mark + most + port_key + port =~= announce + mark + (most + (port_key
        + port)));
    let all = most + (port_key + port);
    assert(announce + mark + all + last =~= announce + mark + (all + last));
}

proof fn lemma_query_literals()
    ensures
        "?compact=1&downloaded=0&info_hash="@ == seq!['?'] + ("compact"@ + seq!['='] + "1"@) + (
        seq!['&'] + "downloaded"@ + seq!['='] + "0"@) + (seq!['&'] + "info_hash"@ + seq!['=']),
        "&left="@ == seq!['&'] + "left"@ + seq!['='],
        "&peer_id="@ == seq!['&'] + "peer_id"@ + seq!['='],
        "&port="@ == seq!['&'] + "port"@ + seq!['='],
        "&uploaded=0"@ == seq!['&'] + "uploaded"@ + seq!['='] + "0"@,
{
    reveal_strlit("?compact=1&downloaded=0&info_hash=");
    reveal_strlit("&left=");
    reveal_strlit("&peer_id=");
    reveal_strlit("&port=");
    reveal_strlit("&uploaded=0");
    reveal_strlit("compact");
    reveal_strlit("1");
    reveal_strlit("downloaded");
    reveal_strlit("0");
    reveal_strlit("info_hash");
    reveal_strlit("left");
    reveal_strlit("peer_id");
    reveal_strlit("port");
    reveal_strlit("uploaded");
}

/// What a torrent file says is kept: its torrent has the file's tracker,
/// whatever the description says, and the description itself. The digest of the
/// description names it, and none of its pieces is there.
pub proof fn law_torrent_file_is_kept(info: InfoView, announce: Option<Seq<char>>)
    ensures
        ({
            let torrent = TorrentView::of_torrent_file(info, announce);
            &&& torrent.announce == announce
            &&& torrent.metadata == Some(info)
            &&& torrent.info_hash == sha1_digest(info.encoded())
            &&& 20 * torrent.bits.len() <= info.pieces.len() < 20 * torrent.bits.len() + 20
            &&& !torrent.bits.contains(true)
        }),
{
}

/// A torrent file with a tracker has that tracker asked for peers, whatever
/// else its description says: it is told the description's digest, and that
/// the whole length is left.
pub proof fn law_tracker_of_file_is_asked(
    info: InfoView,
    announce: Seq<char>,
    peer_id: Seq<u8>,
    port: int,
)
    requires
        info.length is Some,
    ensures
        ({
            let torrent = TorrentView::of_torrent_file(info, Some(announce));
            &&& torrent.metadata is Some
            &&& torrent.metadata->0.length is Some
            &&& torrent.announce is Some
            &&& tracker_url(
                torrent.announce->0,
                torrent.info_hash,
                torrent.metadata->0.length->0 as int,
                peer_id,
                port,
            ) == announce + seq!['?'] + query(
                tracker_fields(sha1_digest(info.encoded()), info.length->0 as int, peer_id, port),
            )
        }),
{
    law_tracker_is_told_by_name(
        announce,
        sha1_digest(info.encoded()),
        info.length->0 as int,
        peer_id,
        port,
    );
}

/// A description that was received is kept as it is; the digest of what was
/// received names the torrent, and none of its pieces is there.
pub proof fn law_received_description_is_kept(metadata: Seq<u8>, info: InfoView)
    ensures
        ({
            let torrent = TorrentView::of_metadata(metadata, info);
            &&& torrent.metadata == Some(info)
            &&& torrent.announce is None
            &&& torrent.info_hash == sha1_digest(metadata)
            &&& 20 * torrent.bits.len() <= info.pieces.len() < 20 * torrent.bits.len() + 20
            &&& !torrent.bits.contains(true)
        }),
{
}

/// Of a torrent that only its info hash is known of, peers are told no size; of
/// any other, they are told how long its description is in bencode, or what
/// 32 bits hold of that.
pub proof fn law_size_is_told(torrent: TorrentView, info_hash: Seq<u8>)
    ensures
        TorrentView::of_info_hash(info_hash).info_hash == info_hash,
        TorrentView::of_info_hash(info_hash).announce is None,
        TorrentView::of_info_hash(info_hash).bits.len() == 0,
        TorrentView::of_info_hash(info_hash).metadata_size() is None,
        torrent.metadata is None <==> torrent.metadata_size() is None,
        torrent.metadata matches Some(info) ==> (info.encoded().len()
            - torrent.metadata_size()->0) % 0x1_0000_0000 == 0,
        torrent.metadata matches Some(info) ==> info.encoded().len() <= u32::MAX
            ==> torrent.metadata_size()->0 == info.encoded().len(),
{
}

/// What is made for a file, empty or not, describes it: pieces of 262144 bytes, as
/// many as it takes, the digest of each in its place, and the file's name and
/// length.
pub proof fn law_description_is_of_file(info: InfoView, name: Seq<char>, file: Seq<u8>, i: nat)
    requires
        describes(info, name, file),
    ensures
        info.name == name,
        info.private is None,
        info.piece_len == 262144,
        info.length is Some,
        file.len() <= i64::MAX ==> info.length->0 == file.len(),
        info.pieces.len() % 20 == 0,
        262144 * (info.pieces.len() / 20) < file.len() + 262144,
        file.len() <= 262144 * (info.pieces.len() / 20),
        i * 262144 < file.len() ==> {
            let end = if i * 262144 + 262144 < file.len() {
                (i * 262144 + 262144) as int
            } else {
                file.len() as int
            };
            &&& 20 * i + 20 <= info.pieces.len()
            &&& info.pieces.subrange(20 * i as int, 20 * i as int + 20) == sha1_digest(
                file.subrange((i * 262144) as int, end),
            )
        },
{
    lemma_chunk_count(file.len(), 262144, i);
    lemma_chunk_step(file.len(), 262144, i);
    if i * 262144 < file.len() {
        let end = if i * 262144 + 262144 < file.len() {
            (i * 262144 + 262144) as int
        } else {
            file.len() as int
        };
        assert(chunk(file, 262144, i) =~= file.subrange((i * 262144) as int, end));
        assert(digest_at(info.pieces, i) == sha1_digest(chunk(file, 262144, i)));
    }
}

/// The model of a torrent has all that the torrent has.
pub proof fn law_torrent_is_modelled(torrent: Torrent)
    ensures
        torrent.metadata matches Some(info) ==> torrent@.metadata == Some(info@),
        torrent.metadata is None ==> torrent@.metadata is None,
        torrent.announce matches Some(announce) ==> torrent@.announce == Some(announce@),
        torrent.announce is None ==> torrent@.announce is None,
        torrent@.info_hash == torrent.info_hash@,
        torrent@.bits == bits_of(torrent.bitfield),
{
}

} // verus!
