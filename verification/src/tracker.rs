//! The peers that a tracker tells of.
use vstd::prelude::*;

use crate::codec::read_be16;

verus! {

/// Where a peer can be reached.
#[derive(Debug, Clone, Copy, PartialEq, Eq)]
pub struct PeerAddr {
    /// The four bytes of its address.
    pub ip: [u8; 4],
    /// Its port.
    pub port: u16,
}

/// Where a peer can be reached, with the address as a sequence.
#[verifier::ext_equal]
pub struct AddrView {
    pub ip: Seq<u8>,
    pub port: u16,
}

impl View for PeerAddr {
    type V = AddrView;

    open spec fn view(&self) -> AddrView {
        AddrView { ip: self.ip@, port: self.port }
    }
}

/// Peer `i` of a list that gives six bytes to each: four for the address and
/// two for the port.
pub open spec fn peer_at(peers: Seq<u8>, i: int) -> AddrView {
    AddrView {
        ip: peers.subrange(6 * i, 6 * i + 4),
        port: (peers[6 * i + 4] * 0x100 + peers[6 * i + 5]) as u16,
    }
}

/// The peers in a tracker's list.
pub fn parse_peers(peers: &[u8]) -> (addresses: Vec<PeerAddr>)
    requires
        peers@.len() % 6 == 0,
    ensures
        addresses@.len() == peers@.len() / 6,
        addresses@.map_values(|address: PeerAddr| address@) == peers_of(peers@),
        forall|i: int|
            0 <= i < addresses@.len() ==> (#[trigger] addresses@[i])@ == peer_at(peers@, i),
{
    let mut addresses: Vec<PeerAddr> = Vec::new();
    let len: usize = peers.len();
    let mut at: usize = 0;
    while at < len
        invariant
            len == peers@.len(),
            len % 6 == 0,
            at <= len,
            at == 6 * addresses@.len(),
            forall|i: int|
                0 <= i < addresses@.len() ==> (#[trigger] addresses@[i])@ == peer_at(peers@, i),
        decreases len - at,
    {
        let ip: [u8; 4] = [peers[at], peers[at + 1], peers[at + 2], peers[at + 3]];
        let port: u16 = read_be16(vstd::slice::slice_subrange(peers, at + 4, at + 6));
        let address = PeerAddr { ip, port };
        assert(address.ip@ =~= peer_at(peers@, addresses@.len() as int).ip);
        addresses.push(address);
        at += 6;
    }
    assert(addresses@.map_values(|address: PeerAddr| address@) =~= peers_of(peers@));
    addresses
}

/// The peers in a list.
pub open spec fn peers_of(peers: Seq<u8>) -> Seq<AddrView> {
    Seq::new(peers.len() / 6, |i: int| peer_at(peers, i))
}

/// A list of peers as a tracker writes it: each as the four bytes of its address
/// and its port in two bytes, the high one first.
pub open spec fn peer_list(addresses: Seq<AddrView>) -> Seq<u8>
    decreases addresses.len(),
{
    if addresses.len() == 0 {
        seq![]
    } else {
        let last = addresses.last();
        peer_list(addresses.drop_last()) + last.ip + seq![
            (last.port / 256) as u8,
            (last.port % 256) as u8,
        ]
    }
}

/// A tracker's list is read without loss: parsing what was written for some
/// addresses gives those addresses, whatever their ports.
pub proof fn law_peer_list_reads_back(addresses: Seq<AddrView>)
    requires
        forall|i: int| 0 <= i < addresses.len() ==> (#[trigger] addresses[i]).ip.len() == 4,
    ensures
        peer_list(addresses).len() == 6 * addresses.len(),
        peers_of(peer_list(addresses)) == addresses,
    decreases addresses.len(),
{
    let list = peer_list(addresses);
    if addresses.len() > 0 {
        let before = addresses.drop_last();
        assert forall|i: int| 0 <= i < before.len() implies (#[trigger] before[i]).ip.len()
            == 4 by {
            assert(before[i] == addresses[i]);
        }
        law_peer_list_reads_back(before);
        let n = before.len() as int;
        let last = addresses.last();
        assert(addresses[n] == last);
        assert(last.ip.len() == 4);
        assert forall|i: int| 0 <= i < addresses.len() implies #[trigger] peers_of(list)[i]
            == addresses[i] by {
            if i < n {
                assert(peers_of(peer_list(before))[i] == before[i]);
                assert(list.subrange(6 * i, 6 * i + 4) =~= peer_list(before).subrange(
                    6 * i,
                    6 * i + 4,
                ));
            } else {
                assert(list.subrange(6 * n, 6 * n + 4) =~= last.ip);
                assert(list[6 * n + 4] == (last.port / 256) as u8);
                assert(list[6 * n + 5] == (last.port % 256) as u8);
            }
        }
    }
    assert(peers_of(list) =~= addresses);
}

/// Every six bytes of a list are a peer: four for its address, in their order,
/// then the high and the low byte of its port.
pub proof fn law_peer_takes_six_bytes(peers: Seq<u8>, i: int)
    requires
        0 <= i,
        6 * i + 6 <= peers.len(),
    ensures
        i < peers_of(peers).len(),
        6 * peers_of(peers).len() <= peers.len() < 6 * peers_of(peers).len() + 6,
        peers_of(peers)[i].ip + seq![
            (peers_of(peers)[i].port / 256) as u8,
            (peers_of(peers)[i].port % 256) as u8,
        ] == peers.subrange(6 * i, 6 * i + 6),
{
    assert(peers_of(peers)[i] == peer_at(peers, i));
    assert(peer_at(peers, i).ip + seq![
        (peer_at(peers, i).port / 256) as u8,
        (peer_at(peers, i).port % 256) as u8,
    ] =~= peers.subrange(6 * i, 6 * i + 6));
}

/// The model of an address has all that the address has.
pub proof fn law_address_is_modelled(address: PeerAddr)
    ensures
        address@.ip == address.ip@,
        address@.port == address.port,
{
}

} // verus!
