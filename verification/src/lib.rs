//! A BitTorrent client whose protocol logic is verified.
//!
//! Everything that decides something stands here: torrents and their info
//! hashes, the wire format, the extension handshake, the download of metadata
//! and of pieces, and seeding. Sockets, files and the event loop are left to
//! the program around it, which performs the actions that these modules
//! choose and hands back what came of them.
pub mod bencode;
pub mod bits;
pub mod blocks;
pub mod bytes;
pub mod chunks;
pub mod codec;
pub mod collector;
pub mod course;
pub mod digest;
pub mod download;
pub mod extension;
pub mod handshake;
pub mod identity;
pub mod message;
pub mod metadata;
pub mod metainfo;
pub mod opcode;
pub mod peer;
pub mod pieces;
pub mod reader;
pub mod seed;
pub mod stream;
pub mod swarm;
pub mod text;
pub mod torrent;
pub mod tracker;
pub mod transfer;
pub mod work;
pub mod worker;

pub use message::Message;
pub use metainfo::{BencodeInfo, BencodeTorrent};
pub use peer::PeerState;
pub use torrent::Torrent;
pub use work::{Download, PieceResult, PieceWork};
