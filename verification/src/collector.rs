//! Gathering the pieces that workers download into the file.
use vstd::prelude::*;

use crate::chunks::{chunk, chunk_start, has_chunk, lemma_chunk_of, lemma_chunk_step};
use crate::torrent::Torrent;
use crate::work::{Download, DownloadView, PieceQueue, PieceWork};

verus! {

/// Gathers pieces.
#[derive(Debug)]
pub struct Collector {
    /// The length of every piece but the last.
    pub piece_len: i64,
    /// How many pieces have been gathered.
    pub downloaded: usize,
}

/// Part of the file to be written.
#[derive(Debug, PartialEq, Eq)]
pub struct PieceWrite {
    /// Where in the file.
    pub begin: u64,
    /// What is written.
    pub data: Vec<u8>,
    /// Whether it is the last part.
    pub done: bool,
}

/// Where piece `index` begins in the file.
pub open spec fn offset(index: usize, piece_len: i64) -> int {
    index as i64 * piece_len
}

/// Part of the file to be written, with its contents as a sequence.
#[verifier::ext_equal]
pub struct WriteView {
    pub begin: u64,
    pub data: Seq<u8>,
    pub done: bool,
}

/// An optional part to be written, with its contents as a sequence.
pub open spec fn write_view(write: Option<PieceWrite>) -> Option<WriteView> {
    match write {
        Some(part) => Some(
            WriteView { begin: part.begin, data: part.data@, done: part.done },
        ),
        None => None,
    }
}

/// Whether a download can be dealt with: the place of a piece fits in 64 bits,
/// and there is room in the queue for one that is handed back.
pub open spec fn can_collect(
    piece_len: i64,
    downloaded: nat,
    waiting: Seq<PieceWork>,
    limit: nat,
    download: DownloadView,
) -> bool {
    match download {
        DownloadView::Result(index, _) => {
            &&& i64::MIN <= offset(index, piece_len) <= i64::MAX
            &&& downloaded < usize::MAX
        },
        DownloadView::Work(_) => waiting.len() < limit,
    }
}

/// What comes of a download: how many pieces have been gathered then, which
/// wait, and what is to be written. It is the last part when as many pieces
/// have been gathered as the queue was made for.
pub open spec fn collect(
    piece_len: i64,
    downloaded: nat,
    waiting: Seq<PieceWork>,
    limit: nat,
    download: DownloadView,
) -> (nat, Seq<PieceWork>, Option<WriteView>) {
    match download {
        DownloadView::Result(index, buf) => (
            downloaded + 1,
            waiting,
            Some(
                WriteView {
                    begin: offset(index, piece_len) as u64,
                    data: buf,
                    done: downloaded + 1 == limit,
                },
            ),
        ),
        DownloadView::Work(work) => (downloaded, waiting.push(work), None),
    }
}

impl Collector {
    /// A collector that has gathered nothing.
    pub fn new(piece_len: i64) -> (collector: Collector)
        ensures
            collector.piece_len == piece_len,
            collector.downloaded == 0,
    {
        Collector { piece_len, downloaded: 0 }
    }

    /// Whether a download can be dealt with.
    pub open spec fn can_take(self, queue: PieceQueue, download: Download) -> bool {
        can_collect(
            self.piece_len,
            self.downloaded as nat,
            queue.waiting(),
            queue.limit(),
            download@,
        )
    }

    /// Whether a download can be dealt with.
    pub fn takes(&self, queue: &PieceQueue, download: &Download) -> (can: bool)
        requires
            queue.wf(),
        ensures
            can == self.can_take(*queue, *download),
    {
        match download {
            Download::Result(piece) => {
                #[verifier::truncate]
                let index: i64 = piece.index as i64;
                index.checked_mul(self.piece_len).is_some() && self.downloaded < usize::MAX
            },
            Download::Work(_) => queue.len() < queue.capacity(),
        }
    }

    /// Deals with what a worker hands over. A piece is to be written to its
    /// place; it is the last one when as many have been gathered as the
    /// torrent has. A piece that was not downloaded goes back into the queue.
    pub fn take(&mut self, queue: &mut PieceQueue, download: Download) -> (write: Option<
        PieceWrite,
    >)
        requires
            old(queue).wf(),
            old(self).can_take(*old(queue), download),
        ensures
            final(queue).wf(),
            final(queue).limit() == old(queue).limit(),
            final(self).piece_len == old(self).piece_len,
            (final(self).downloaded as nat, final(queue).waiting(), write_view(write)) == collect(
                old(self).piece_len,
                old(self).downloaded as nat,
                old(queue).waiting(),
                old(queue).limit(),
                download@,
            ),
    {
        match download {
            Download::Result(piece) => {
                #[verifier::truncate]
                let index: i64 = piece.index as i64;
                let begin: i64 = index * self.piece_len;
                self.downloaded = self.downloaded + 1;
                Some(
                    PieceWrite {
                        begin: #[verifier::truncate]
                        (begin as u64),
                        data: piece.buf,
                        done: self.downloaded == queue.capacity(),
                    },
                )
            },
            Download::Work(work) => {
                queue.put(work);
                None
            },
        }
    }
}

impl Torrent {
    /// Starts to gather the pieces of a torrent.
    pub fn download_pieces(&self) -> (collector: Collector)
        requires
            self.metadata is Some,
        ensures
            collector.piece_len == self.metadata->0.piece_len,
            collector.downloaded == 0,
    {
        Collector::new(self.metadata.as_ref().unwrap().piece_len)
    }
}

/// A file after `data` has been written to it at `at`. A gap before that is
/// filled with zeros, unless there is nothing to write.
pub open spec fn written(file: Seq<u8>, at: int, data: Seq<u8>) -> Seq<u8> {
    Seq::new(
        if data.len() > 0 && file.len() < at + data.len() {
            (at + data.len()) as nat
        } else {
            file.len()
        },
        |i: int|
            if at <= i < at + data.len() {
                data[i - at]
            } else if i < file.len() {
                file[i]
            } else {
                0u8
            },
    )
}

/// A file after some pieces of `data` have been written to their places, in the
/// order given.
pub open spec fn gathered(file: Seq<u8>, data: Seq<u8>, size: nat, order: Seq<nat>) -> Seq<u8>
    decreases order.len(),
{
    if order.len() == 0 {
        file
    } else {
        written(
            gathered(file, data, size, order.drop_last()),
            chunk_start(data.len(), size, order.last()) as int,
            chunk(data, size, order.last()),
        )
    }
}

proof fn lemma_gathered(
    file: Seq<u8>,
    data: Seq<u8>,
    size: nat,
    order: Seq<nat>,
    at: nat,
)
    requires
        size > 0,
        file.len() <= data.len(),
    ensures
        gathered(file, data, size, order).len() <= data.len(),
        at < data.len() && order.contains(at / size) ==> {
            &&& at < gathered(file, data, size, order).len()
            &&& gathered(file, data, size, order)[at as int] == data[at as int]
        },
    decreases order.len(),
{
    if order.len() > 0 {
        let before = order.drop_last();
        lemma_gathered(file, data, size, before, at);
        let k = order.last();
        lemma_chunk_step(data.len(), size, k);
        if at < data.len() && order.contains(at / size) {
            lemma_chunk_of(data.len(), size, at);
            if k != at / size {
                let j = choose|j: int| 0 <= j < order.len() && order[j] == at / size;
                assert(before[j] == at / size);
                assert(before.contains(at / size));
            }
        }
    }
}

/// Whatever was in the file, and in whatever order they come, once all pieces
/// have been written to their places, the file is what they are pieces of.
pub proof fn law_gathered_pieces_make_file(
    file: Seq<u8>,
    data: Seq<u8>,
    size: nat,
    order: Seq<nat>,
)
    requires
        size > 0,
        file.len() <= data.len(),
        forall|k: nat| has_chunk(data.len(), size, k) ==> #[trigger] order.contains(k),
    ensures
        gathered(file, data, size, order) == data,
{
    let result = gathered(file, data, size, order);
    if data.len() > 0 {
        let last = (data.len() - 1) as nat;
        lemma_chunk_of(data.len(), size, last);
        lemma_gathered(file, data, size, order, last);
    } else {
        lemma_gathered(file, data, size, order, 0);
    }
    assert forall|i: int| 0 <= i < data.len() implies result[i] == data[i] by {
        lemma_chunk_of(data.len(), size, i as nat);
        lemma_gathered(file, data, size, order, i as nat);
    }
    assert(result =~= data);
}

/// A piece that was downloaded is written as it came in, to its place, and
/// counted; it is the last one when that makes as many as there are. Nothing is
/// queued for it.
pub proof fn law_piece_is_written_to_its_place(
    piece_len: i64,
    downloaded: nat,
    waiting: Seq<PieceWork>,
    limit: nat,
    index: usize,
    buf: Seq<u8>,
)
    requires
        index <= i64::MAX,
        0 <= index * piece_len <= i64::MAX,
        downloaded < usize::MAX,
    ensures
        ({
            let piece = DownloadView::Result(index, buf);
            let (count, left, write) = collect(piece_len, downloaded, waiting, limit, piece);
            &&& can_collect(piece_len, downloaded, waiting, limit, piece)
            &&& count == downloaded + 1
            &&& left == waiting
            &&& write matches Some(part)
            &&& part.begin == index * piece_len
            &&& part.data == buf
            &&& part.done <==> limit == downloaded + 1
        }),
{
    assert(offset(index, piece_len) == index * piece_len);
}

/// A piece that was handed back waits behind all the others, as it was; it is
/// not counted, and nothing is written.
pub proof fn law_piece_waits_again(
    piece_len: i64,
    downloaded: nat,
    waiting: Seq<PieceWork>,
    limit: nat,
    work: PieceWork,
)
    requires
        waiting.len() < limit,
    ensures
        can_collect(piece_len, downloaded, waiting, limit, DownloadView::Work(work)),
        collect(piece_len, downloaded, waiting, limit, DownloadView::Work(work)) == (
            downloaded,
            waiting + seq![work],
            None::<WriteView>,
        ),
{
    assert(waiting.push(work) =~= waiting + seq![work]);
}

/// The model of a part to be written has all that the part has.
pub proof fn law_write_is_modelled(write: Option<PieceWrite>)
    ensures
        write is None <==> write_view(write) is None,
        write matches Some(part) ==> {
            &&& write_view(write)->0.begin == part.begin
            &&& write_view(write)->0.data == part.data@
            &&& write_view(write)->0.done == part.done
        },
{
}

} // verus!
