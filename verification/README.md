# wasmtorrent

A BitTorrent client for single-file torrents, meant for native programs and,
over WebRTC data channels, for browsers. Its protocol logic is verified with
[Verus](https://github.com/verus-lang/verus).

## Layout

- `src/` is the verified library. It does no input or output. What happens on a
  connection is decided by state machines: each takes an event and returns the
  action to perform.
  - `torrent`, `metainfo`, `pieces`, `tracker`, `identity`: torrents from files,
    magnet links and metadata; info hashes; which pieces are missing; trackers.
  - `message`, `reader`, `opcode`, `peer`, `handshake`, `extension`, `stream`:
    the wire format, the handshake and the extension protocol.
  - `download`, `worker`, `work`, `collector`, `swarm`: downloading pieces from
    many peers into one file.
  - `metadata`, `seed`: downloading and serving metadata, and seeding.
  - `blocks`, `transfer`, `course`: what holds of a download as a whole. From a
    peer that has the file, every piece comes through unchanged. Whatever peers
    send, a download that has finished has every piece in its place, with the
    digest that the torrent gives for it.
  - `bencode`, `bits`, `bytes`, `chunks`, `codec`, `digest`, `text`: the formats
    underneath, and the calls into other crates.
- `app/` is the program: sockets, files, the event loop, the browser.
- `tests/` runs the library, among other things on a file that goes from one
  side to the other.

## What is trusted

The calls into other crates stand behind small functions marked
`#[verifier::external_body]`, in `bencode`, `bits`, `codec`, `digest`,
`identity`, `text` and `work`. Their contracts are not proved; the doc comment
of each says what it claims of the function that it calls.

## Usage

    wasmtorrent <file.torrent>
    wasmtorrent --torrentfile <file.torrent> --seeder <ip>:<port>

The first form asks the torrent's tracker for peers; the second downloads from
the given seed.
