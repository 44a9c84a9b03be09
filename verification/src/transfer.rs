//! What passes between a seeder and a downloader.
use vstd::prelude::*;

use crate::bits::law_packed_bits_unpack;
use crate::blocks::{
    answered, block_answer, block_begin, block_count, block_len, law_truthful_answers_rebuild_piece,
    orderly, progress, DownloadEvent,
};
use crate::bytes::{be32, lemma_be32_value};
use crate::chunks::{chunk, chunk_start, has_chunk, lemma_chunk_count, lemma_chunk_step};
use crate::collector::{gathered, law_gathered_pieces_make_file, offset};
use crate::digest::sha1_digest;
use crate::download::{request_message, MAX_PIECE};
use crate::extension::{ExtMsg, METADATA_REQUEST};
use crate::metadata::{
    answered_download, law_metadata_comes_in, metadata_answer, metadata_pieces, MetadataActionView,
    MetadataView, METADATA_PIECE_LEN,
};
use crate::message::MessageView;
use crate::metainfo::InfoView;
use crate::opcode;
use crate::peer::PeerView;
use crate::pieces::law_pieces_are_chunks;
use crate::seed::{
    law_seeder_reads_where_asked, request_of, PieceRequest, SeederActionView, SeederEventView, SeederStageView, SeederView,
};
use crate::torrent::{describes_file, TorrentView};
use crate::work::PieceWork;
use crate::worker::{fetching, have_message, WorkerActionView, WorkerView};

verus! {

/// A seeder understands a request as it was meant.
pub proof fn law_request_is_understood(index: u32, begin: u32, len: u32)
    ensures
        request_of(request_message(index, begin, len).payload) == Some(
            PieceRequest { index, requested: begin, len },
        ),
{
    let payload = request_message(index, begin, len).payload;
    assert(payload =~= be32(index) + (be32(begin) + be32(len)));
    lemma_be32_value(index, be32(begin) + be32(len));
    assert(payload.skip(4) =~= be32(begin) + be32(len));
    lemma_be32_value(begin, be32(len));
    assert(payload.skip(8) =~= be32(len) + seq![]);
    lemma_be32_value(len, seq![]);
}

/// A seeder that is asked for a block of a piece reads that part of the file,
/// and what it answers with is the block. Blocks whose place in the file does
/// not fit in 32 bits are left out: no request for one can be served.
pub proof fn law_seeder_serves_blocks(seeder: SeederView, file: Seq<u8>, i: nat, k: nat)
    requires
        seeder.stage == SeederStageView::Listening,
        seeder.piece_len > 0,
        has_chunk(file.len(), seeder.piece_len as nat, i),
        k < block_count(chunk(file, seeder.piece_len as nat, i).len()),
        chunk_start(file.len(), seeder.piece_len as nat, i) + block_begin(
            chunk(file, seeder.piece_len as nat, i).len(),
            k,
        ) <= u32::MAX,
    ensures
        ({
            let piece = chunk(file, seeder.piece_len as nat, i);
            let begin = block_begin(piece.len(), k);
            let len = block_len(piece.len(), k);
            let request = request_message(i as u32, begin as u32, len as u32);
            let from = chunk_start(file.len(), seeder.piece_len as nat, i) + begin;
            let data = file.subrange(from as int, (from + len) as int);
            let (reading, action) = seeder.step(SeederEventView::Heard(request));
            &&& from + len <= file.len()
            &&& seeder.expects(SeederEventView::Heard(request))
            &&& action == SeederActionView::Read { begin: from as u32, len: len as u32 }
            &&& (SeederView { stage: reading, ..seeder }).expects(SeederEventView::Read(data))
            &&& (SeederView { stage: reading, ..seeder }).step(SeederEventView::Read(data)).1
                == SeederActionView::Send(block_answer(i as u32, piece, k))
        }),
{
    let size = seeder.piece_len as nat;
    let piece = chunk(file, size, i);
    let begin = block_begin(piece.len(), k);
    let len = block_len(piece.len(), k);
    let start = chunk_start(file.len(), size, i);
    lemma_chunk_step(file.len(), size, i);
    law_request_is_understood(i as u32, begin as u32, len as u32);
    assert(i <= start) by (nonlinear_arith)
        requires
            start == i * size,
            size > 0,
    ;
    if i > 0 {
        assert(size <= start) by (nonlinear_arith)
            requires
                start == i * size,
                i > 0,
        ;
        assert(i as u32 * seeder.piece_len as u32 == i * size);
    } else {
        assert(0 * size == 0 && 0 * (seeder.piece_len as u32) == 0) by (nonlinear_arith);
    }
    assert(i as u32 * seeder.piece_len as u32 == start);
    let data = file.subrange((start + begin) as int, (start + begin + len) as int);
    assert(piece.subrange(begin as int, block_begin(piece.len(), k + 1) as int) =~= data);
}

/// A piece that is downloaded from a peer that has the file comes in as it is
/// in the file: the worker finds that it matches its hash, announces it and
/// holds its contents. `work` is the task for piece `i` of a torrent that
/// describes the file. Pieces that are too long to be asked for, or whose
/// number does not fit in a request, are left out.
pub proof fn law_piece_comes_through(
    info: InfoView,
    file: Seq<u8>,
    i: nat,
    work: PieceWork,
    events: Seq<DownloadEvent>,
    choked: bool,
)
    requires
        describes_file(info, file),
        info.piece_count() * info.piece_len <= i64::MAX,
        i < info.piece_count(),
        i <= u32::MAX,
        i <= usize::MAX,
        chunk(file, info.piece_len as nat, i).len() <= MAX_PIECE,
        work@ == info.work(i),
        orderly(work.index, chunk(file, info.piece_len as nat, i), events),
    ensures
        ({
            let piece = chunk(file, info.piece_len as nat, i);
            let download = progress(work.index, piece, events);
            &&& work.len == piece.len()
            &&& download.done() <==> forall|k: nat|
                k < block_count(piece.len()) ==> #[trigger] answered(events).contains(k)
            &&& download.done() ==> fetching(work, download, choked) == (
                WorkerView::Announcing(work.index, piece),
                WorkerActionView::Send(have_message(work.index)),
            )
        }),
{
    let piece = chunk(file, info.piece_len as nat, i);
    law_pieces_are_chunks(info, file);
    assert(info.has_extent(i));
    law_truthful_answers_rebuild_piece(work.index, piece, events);
    assert(work@.hash == sha1_digest(piece));
}

/// A file comes through: once every piece of a torrent that describes it has
/// been written to the place that the collector gives it, in whatever order,
/// the file is there.
pub proof fn law_file_comes_through(
    info: InfoView,
    file: Seq<u8>,
    output: Seq<u8>,
    order: Seq<nat>,
)
    requires
        describes_file(info, file),
        info.piece_count() * info.piece_len <= i64::MAX,
        output.len() <= file.len(),
        forall|i: nat| i < info.piece_count() ==> #[trigger] order.contains(i),
    ensures
        forall|i: nat|
            i < info.piece_count() && i <= usize::MAX ==> #[trigger] offset(
                i as usize,
                info.piece_len,
            ) == chunk_start(file.len(), info.piece_len as nat, i),
        gathered(output, file, info.piece_len as nat, order) == file,
{
    let size = info.piece_len as nat;
    law_pieces_are_chunks(info, file);
    assert forall|i: nat| i < info.piece_count() && i <= usize::MAX implies #[trigger] offset(
        i as usize,
        info.piece_len,
    ) == chunk_start(file.len(), size, i) by {
        assert(info.has_extent(i));
        assert(i <= info.piece_begin(i)) by (nonlinear_arith)
            requires
                info.piece_begin(i) == i * info.piece_len,
                info.piece_len > 0,
        ;
    }
    assert forall|i: nat| has_chunk(file.len(), size, i) implies #[trigger] order.contains(i) by {
        lemma_chunk_count(file.len(), size, i);
    }
    law_gathered_pieces_make_file(output, file, size, order);
}

/// A seeder that is asked for a piece of metadata answers with that piece.
pub proof fn law_seeder_serves_metadata(seeder: SeederView, payload: Seq<u8>, piece: i32)
    requires
        seeder.stage == SeederStageView::Decoding(payload),
        0 <= piece < metadata_pieces(seeder.metadata.len()),
    ensures
        ({
            let request = ExtMsg { msg_type: METADATA_REQUEST, piece, total_size: None };
            &&& seeder.expects(SeederEventView::Decoded(request))
            &&& seeder.step(SeederEventView::Decoded(request)) == (
                SeederStageView::Answering,
                SeederActionView::Send(metadata_answer(seeder.metadata, piece)),
            )
        }),
{
    lemma_chunk_count(seeder.metadata.len(), METADATA_PIECE_LEN as nat, piece as nat);
}

/// A torrent's description comes through: who starts from the size that a
/// seeder of the torrent tells, and gets the seeder's answers, ends with the
/// description as the seeder has it, in as many requests as it has pieces.
/// Descriptions of 2^32 bytes or more are left out: their size cannot be told.
pub proof fn law_metadata_comes_through(
    info: InfoView,
    announce: Option<Seq<char>>,
    bits: Seq<bool>,
    message_id: u8,
)
    requires
        info.encoded().len() <= u32::MAX,
    ensures
        ({
            let torrent = TorrentView::of_torrent_file(info, announce);
            let data = SeederView::start(info, bits).metadata;
            let size = torrent.metadata_size()->0;
            let download = MetadataView::start(torrent.info_hash, message_id, size);
            &&& torrent.metadata_size() is Some
            &&& size == data.len()
            &&& answered_download(download, data, metadata_pieces(data.len()))
                == (MetadataView::Ended, MetadataActionView::Complete(info.encoded()))
        }),
{
    law_metadata_comes_in(sha1_digest(info.encoded()), message_id, info.encoded());
}

/// A peer notes the pieces that a seeder tells it of.
pub proof fn law_bitfield_is_noted(info: InfoView, bits: Seq<bool>, peer: PeerView)
    ensures
        ({
            let (_, action) = SeederView::start(info, bits).step(SeederEventView::Ready);
            &&& action matches SeederActionView::Send(message)
            &&& peer.after(message).bits.take(bits.len() as int) == bits
            &&& peer.after(message).bits.len() >= bits.len()
            &&& forall|i: int|
                bits.len() <= i < peer.after(message).bits.len() ==> !#[trigger] peer.after(
                    message,
                ).bits[i]
        }),
{
    law_packed_bits_unpack(bits);
}

/// A seeder of a file, asked for block `k` of piece `i`, answers with the file's
/// bytes from where the block begins: as many pieces before it as `i`, each as
/// long as the torrent says, and 16384 bytes for each block. Blocks whose place
/// in the file does not fit in 32 bits are left out.
pub proof fn law_file_is_served(
    info: InfoView,
    bits: Seq<bool>,
    file: Seq<u8>,
    i: nat,
    k: nat,
    len: u32,
)
    requires
        info.piece_len > 0,
        16384 * k + len <= info.piece_len,
        i * info.piece_len + 16384 * k + len <= file.len(),
        i * info.piece_len + 16384 * k <= u32::MAX,
        i <= u32::MAX,
    ensures
        ({
            let from = i * info.piece_len + 16384 * k;
            let data = file.subrange(from, from + len);
            let seeder = SeederView {
                stage: SeederStageView::Listening,
                ..SeederView::start(info, bits)
            };
            let heard = SeederEventView::Heard(
                MessageView {
                    id: opcode::REQUEST,
                    payload: be32(i as u32) + be32((16384 * k) as u32) + be32(len),
                },
            );
            let (reading, action) = seeder.step(heard);
            &&& seeder.expects(heard)
            &&& action == SeederActionView::Read { begin: from as u32, len }
            &&& (SeederView { stage: reading, ..seeder }).step(SeederEventView::Read(data)).1
                == SeederActionView::Send(
                MessageView {
                    id: opcode::PIECE,
                    payload: be32(i as u32) + be32((16384 * k) as u32) + data,
                },
            )
        }),
{
    let from = i * info.piece_len + 16384 * k;
    assert(i * info.piece_len >= 0) by (nonlinear_arith)
        requires
            info.piece_len > 0,
            i >= 0,
    ;
    if i > 0 {
        assert(info.piece_len <= i * info.piece_len) by (nonlinear_arith)
            requires
                info.piece_len > 0,
                i >= 1,
        ;
    }
    let request = PieceRequest { index: i as u32, requested: (16384 * k) as u32, len };
    assert(request.index * info.piece_len == i * info.piece_len);
    law_seeder_reads_where_asked(info, bits, request, file.subrange(from, from + len));
}

} // verus!
