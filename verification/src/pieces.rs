//! Which pieces of a torrent are still to be downloaded.
use vstd::prelude::*;

use crate::bytes::same_bytes;
use crate::chunks::{
    chunk, chunk_count, chunk_start, has_chunk, lemma_chunk_count, lemma_chunk_step,
};
use crate::digest::{sha1, sha1_digest};
use crate::metainfo::{digest_at, BencodeInfo, InfoView};
use crate::torrent::{describes_file, Torrent};
use crate::work::{PieceQueue, PieceWork};

verus! {

/// The most pieces that a queue can be made for.
pub open spec fn max_pieces() -> nat {
    (usize::MAX / 128) as nat
}

/// A piece to download with its digest as a sequence.
#[verifier::ext_equal]
pub struct WorkView {
    pub index: usize,
    pub hash: Seq<u8>,
    pub len: u32,
}

impl View for PieceWork {
    type V = WorkView;

    open spec fn view(&self) -> WorkView {
        WorkView { index: self.index, hash: self.hash@, len: self.len }
    }
}

/// Whether `n` is a 64-bit integer.
pub open spec fn fits_i64(n: int) -> bool {
    i64::MIN <= n <= i64::MAX
}

impl InfoView {
    /// The length of the pieces as a size.
    pub open spec fn chunk_size(self) -> usize {
        self.piece_len as usize
    }

    /// Whether `file` holds piece `i`: it is long enough to have a chunk there,
    /// and the chunk's digest is that of the piece.
    pub open spec fn has_piece(self, file: Option<Seq<u8>>, i: nat) -> bool {
        file matches Some(file) && has_chunk(file.len(), self.chunk_size() as nat, i)
            && sha1_digest(chunk(file, self.chunk_size() as nat, i)) == self.piece_hash(i)
    }

    /// Where piece `i` begins in the file.
    pub open spec fn piece_begin(self, i: nat) -> int {
        i * self.piece_len
    }

    /// Where piece `i` ends in the file.
    pub open spec fn piece_end(self, i: nat) -> int {
        if self.piece_begin(i) + self.piece_len < self.length->0 {
            self.piece_begin(i) + self.piece_len
        } else {
            self.length->0 as int
        }
    }

    /// Whether the extent of piece `i` can be computed: the file's length is
    /// known, and 64 bits suffice.
    pub open spec fn has_extent(self, i: nat) -> bool {
        &&& self.length is Some
        &&& fits_i64(self.piece_begin(i))
        &&& fits_i64(self.piece_begin(i) + self.piece_len)
        &&& fits_i64(self.piece_end(i) - self.piece_begin(i))
    }

    /// What is to be done for piece `i`.
    pub open spec fn work(self, i: nat) -> WorkView {
        WorkView {
            index: i as usize,
            hash: self.piece_hash(i),
            len: (self.piece_end(i) - self.piece_begin(i)) as u32,
        }
    }

    /// What is to be done for those of the first `n` pieces that `file` does not
    /// hold, in their order.
    pub open spec fn works(self, file: Option<Seq<u8>>, n: nat) -> Seq<WorkView>
        decreases n,
    {
        if n == 0 {
            seq![]
        } else {
            let before = self.works(file, (n - 1) as nat);
            if self.has_piece(file, (n - 1) as nat) {
                before
            } else {
                before.push(self.work((n - 1) as nat))
            }
        }
    }

    /// Whether the pieces that `file` does not hold can be queued: there are not
    /// too many, the file can be cut into pieces, and each piece that is
    /// missing has an extent.
    pub open spec fn can_enqueue(self, file: Option<Seq<u8>>) -> bool {
        &&& self.piece_count() <= max_pieces()
        &&& file is Some ==> self.chunk_size() > 0
        &&& forall|i: nat|
            i < self.piece_count() && !#[trigger] self.has_piece(file, i) ==> self.has_extent(i)
    }
}

/// Without a file, every piece is missing: all are queued, in their order.
pub proof fn law_no_file_misses_all(info: InfoView, n: nat)
    ensures
        info.works(None, n) == Seq::new(n, |i: int| info.work(i as nat)),
    decreases n,
{
    if n > 0 {
        law_no_file_misses_all(info, (n - 1) as nat);
    }
    assert(info.works(None, n) =~= Seq::new(n, |i: int| info.work(i as nat)));
}

/// Of the file that a torrent describes, no piece is missing.
pub proof fn law_whole_file_misses_none(info: InfoView, file: Seq<u8>, n: nat)
    requires
        describes_file(info, file),
        info.piece_len <= usize::MAX,
        n <= info.piece_count(),
    ensures
        info.works(Some(file), n) == Seq::<WorkView>::empty(),
    decreases n,
{
    if n > 0 {
        let i = (n - 1) as nat;
        law_whole_file_misses_none(info, file, i);
        lemma_chunk_count(file.len(), info.piece_len as nat, i);
        assert(info.has_piece(Some(file), i));
    }
}

/// The pieces of a torrent that describes a file are its chunks: each has the
/// extent and the digest of one, and its length if that fits in 32 bits, and
/// all can be queued. Files so long that the place behind their last piece
/// exceeds 63 bits are left out.
pub proof fn law_pieces_are_chunks(info: InfoView, file: Seq<u8>)
    requires
        describes_file(info, file),
        info.piece_count() * info.piece_len <= i64::MAX,
    ensures
        info.piece_count() == chunk_count(file.len(), info.piece_len as nat),
        file.len() <= i64::MAX,
        forall|i: nat|
            i < info.piece_count() ==> {
                &&& #[trigger] info.has_extent(i)
                &&& info.piece_begin(i) == chunk_start(file.len(), info.piece_len as nat, i)
                &&& info.piece_end(i) == chunk_start(file.len(), info.piece_len as nat, i + 1)
                &&& chunk(file, info.piece_len as nat, i).len() > 0
                &&& chunk(file, info.piece_len as nat, i).len() <= u32::MAX ==> info.work(i).len
                    == chunk(file, info.piece_len as nat, i).len()
                &&& info.work(i).hash == sha1_digest(chunk(file, info.piece_len as nat, i))
            },
        info.piece_count() <= max_pieces() ==> info.can_enqueue(None),
{
    let size = info.piece_len as nat;
    let count = info.piece_count();
    lemma_chunk_count(file.len(), size, count);
    assert forall|i: nat| i < count implies {
        &&& #[trigger] info.has_extent(i)
        &&& info.piece_begin(i) == chunk_start(file.len(), size, i)
        &&& info.piece_end(i) == chunk_start(file.len(), size, i + 1)
        &&& chunk(file, size, i).len() > 0
        &&& chunk(file, size, i).len() <= u32::MAX ==> info.work(i).len == chunk(
            file,
            size,
            i,
        ).len()
        &&& info.work(i).hash == sha1_digest(chunk(file, size, i))
    } by {
        lemma_chunk_count(file.len(), size, i);
        lemma_chunk_step(file.len(), size, i);
        assert(0 <= i * size && i * size + size <= count * size) by (nonlinear_arith)
            requires
                i + 1 <= count,
                size > 0,
        ;
    }
}

/// The bytes of an optional file.
pub open spec fn file_view(file: Option<Vec<u8>>) -> Option<Seq<u8>> {
    match file {
        Some(file) => Some(file@),
        None => None,
    }
}

/// The digest of piece `i`.
fn hash_at(pieces: &[u8], i: usize) -> (hash: [u8; 20])
    requires
        20 * i + 20 <= pieces@.len(),
    ensures
        hash@ == digest_at(pieces@, i as nat),
{
    let mut hash: [u8; 20] = [0u8; 20];
    let total: usize = pieces.len();
    let at: usize = 20 * i;
    let mut j: usize = 0;
    while j < 20
        invariant
            at == 20 * i,
            at + 20 <= total == pieces@.len(),
            j <= 20,
            hash@.len() == 20,
            forall|k: int| 0 <= k < j ==> hash@[k] == pieces@[at + k],
        decreases 20 - j,
    {
        hash[j] = pieces[at + j];
        j += 1;
    }
    assert(hash@ =~= digest_at(pieces@, i as nat));
    hash
}

/// Whether the chunk of `file` that begins at `at` has the digest `hash`.
fn chunk_matches(file: &[u8], size: usize, i: Ghost<nat>, at: usize, hash: &[u8; 20]) -> (
    matches: bool
)
    requires
        at == chunk_start(file@.len(), size as nat, i@),
    ensures
        matches == (has_chunk(file@.len(), size as nat, i@) && sha1_digest(
            chunk(file@, size as nat, i@),
        ) == hash@),
{
    proof {
        lemma_chunk_step(file@.len(), size as nat, i@);
    }
    if at >= file.len() {
        return false;
    }
    let digest = sha1(vstd::slice::slice_subrange(file, at, chunk_end(file, size, i, at)));
    same_bytes(&digest, hash)
}

/// Where the chunk that begins at `at` ends.
fn chunk_end(file: &[u8], size: usize, i: Ghost<nat>, at: usize) -> (end: usize)
    requires
        at == chunk_start(file@.len(), size as nat, i@),
    ensures
        end == chunk_start(file@.len(), size as nat, i@ + 1),
        at <= end <= file@.len(),
{
    proof {
        lemma_chunk_step(file@.len(), size as nat, i@);
    }
    if file.len() - at > size {
        at + size
    } else {
        file.len()
    }
}

/// Whether piece `i` has an extent.
fn has_extent(info: &BencodeInfo, i: usize) -> (has: bool)
    requires
        i <= i64::MAX,
    ensures
        has == info@.has_extent(i as nat),
{
    match info.length {
        None => false,
        Some(length) => {
            proof {
                lemma_extent_i128(i as nat, info.piece_len);
            }
            let begin: i128 = i as i128 * info.piece_len as i128;
            let after: i128 = begin + info.piece_len as i128;
            let end: i128 = if after < length as i128 {
                after
            } else {
                length as i128
            };
            let low: i128 = i64::MIN as i128;
            let high: i128 = i64::MAX as i128;
            low <= begin && begin <= high && low <= after && after <= high && low <= end - begin
                && end - begin <= high
        },
    }
}

proof fn lemma_extent_i128(i: nat, piece_len: i64)
    requires
        i <= i64::MAX,
    ensures
        -0x4000_0000_0000_0000_0000_0000_0000_0000 <= i * piece_len
            <= 0x4000_0000_0000_0000_0000_0000_0000_0000,
{
    assert(-0x4000_0000_0000_0000_0000_0000_0000_0000 <= i * piece_len
        <= 0x4000_0000_0000_0000_0000_0000_0000_0000) by (nonlinear_arith)
        requires
            0 <= i <= 0x7fff_ffff_ffff_ffff,
            -0x8000_0000_0000_0000 <= piece_len <= 0x7fff_ffff_ffff_ffff,
    ;
}

impl BencodeInfo {
    /// Whether the pieces that `file` does not hold can be queued.
    pub fn can_enqueue(&self, file: &Option<Vec<u8>>) -> (can: bool)
        ensures
            can == self@.can_enqueue(file_view(*file)),
    {
        let n: usize = self.pieces.len() / 20;
        if n > usize::MAX / 128 {
            return false;
        }
        #[verifier::truncate]
        let size: usize = self.piece_len as usize;
        if file.is_some() && size == 0 {
            return false;
        }
        let mut at: usize = 0;
        let mut i: usize = 0;
        while i < n
            invariant
                i <= n,
                n == self@.piece_count() <= max_pieces(),
                size == self@.chunk_size(),
                file is Some ==> size > 0,
                file matches Some(file) ==> at == chunk_start(file@.len(), size as nat, i as nat),
                forall|j: nat|
                    j < i && !#[trigger] self@.has_piece(file_view(*file), j)
                        ==> self@.has_extent(j),
            decreases n - i,
        {
            let hash = hash_at(self.pieces.as_slice(), i);
            let mut held = false;
            if let Some(file) = file {
                held = chunk_matches(file.as_slice(), size, Ghost(i as nat), at, &hash);
                at = chunk_end(file.as_slice(), size, Ghost(i as nat), at);
            }
            assert(held == self@.has_piece(file_view(*file), i as nat));
            if !held && !has_extent(self, i) {
                return false;
            }
            i += 1;
        }
        true
    }
}

impl Torrent {
    /// A queue with the pieces that `file` does not hold. It has room for all
    /// the pieces of the torrent.
    pub fn enqueue_pieces(&self, file: Option<Vec<u8>>) -> (queue: PieceQueue)
        requires
            self.metadata is Some,
            self.metadata->0@.can_enqueue(file_view(file)),
        ensures
            queue.wf(),
            queue.limit() == self.metadata->0@.piece_count(),
            queue.waiting().map_values(|w: PieceWork| w@) == self.metadata->0@.works(
                file_view(file),
                self.metadata->0@.piece_count(),
            ),
    {
        let info = self.metadata.as_ref().unwrap();
        let n: usize = info.pieces.len() / 20;
        #[verifier::truncate]
        let size: usize = info.piece_len as usize;
        let mut queue = PieceQueue::new(n);
        let mut at: usize = 0;
        let mut i: usize = 0;
        assert(queue.waiting().map_values(|w: PieceWork| w@) =~= info@.works(file_view(file), 0));
        while i < n
            invariant
                i <= n,
                n == info@.piece_count() <= max_pieces(),
                size == info@.chunk_size(),
                info@.can_enqueue(file_view(file)),
                file matches Some(file) ==> at == chunk_start(file@.len(), size as nat, i as nat),
                queue.wf(),
                queue.limit() == n,
                queue.waiting().len() <= i,
                queue.waiting().map_values(|w: PieceWork| w@) == info@.works(
                    file_view(file),
                    i as nat,
                ),
            decreases n - i,
        {
            let hash = hash_at(info.pieces.as_slice(), i);
            let mut held = false;
            if let Some(file) = &file {
                held = chunk_matches(file.as_slice(), size, Ghost(i as nat), at, &hash);
                at = chunk_end(file.as_slice(), size, Ghost(i as nat), at);
            }
            assert(held == info@.has_piece(file_view(file), i as nat));
            if !held {
                let length: i64 = info.length.unwrap();
                let begin: i64 = i as i64 * info.piece_len;
                let after: i64 = begin + info.piece_len;
                let end: i64 = if after < length {
                    after
                } else {
                    length
                };
                #[verifier::truncate]
                let len: u32 = (end - begin) as u32;
                let work = PieceWork { index: i, hash, len };
                assert(work@ =~= info@.work(i as nat));
                let ghost before = queue.waiting();
                queue.put(work);
                assert(queue.waiting().map_values(|w: PieceWork| w@) =~= before.map_values(
                    |w: PieceWork| w@,
                ).push(work@));
            }
            i += 1;
        }
        queue
    }

    /// A queue with the pieces that `file` does not hold, or nothing if they
    /// cannot be queued.
    pub fn try_enqueue_pieces(&self, file: Option<Vec<u8>>) -> (queue: Option<PieceQueue>)
        ensures
            queue is Some <==> self.metadata is Some && self.metadata->0@.can_enqueue(
                file_view(file),
            ),
            queue matches Some(queue) ==> {
                &&& queue.wf()
                &&& queue.limit() == self.metadata->0@.piece_count()
                &&& queue.waiting().map_values(|w: PieceWork| w@) == self.metadata->0@.works(
                    file_view(file),
                    self.metadata->0@.piece_count(),
                )
            },
    {
        match &self.metadata {
            Some(info) => {
                if info.can_enqueue(&file) {
                    Some(self.enqueue_pieces(file))
                } else {
                    None
                }
            },
            None => None,
        }
    }
}

/// Whether piece `i` is among those that wait.
pub open spec fn waits(works: Seq<WorkView>, i: nat) -> bool {
    exists|k: int| 0 <= k < works.len() && (#[trigger] works[k]).index == i
}

/// Whether a file is long enough to hold something of piece `i`, and what it
/// holds there has the piece's digest.
pub open spec fn stands_in(info: InfoView, file: Seq<u8>, i: nat) -> bool {
    let begin = i * info.piece_len as int;
    let end = if begin + info.piece_len < file.len() {
        begin + info.piece_len
    } else {
        file.len() as int
    };
    begin < file.len() && sha1_digest(file.subrange(begin, end)) == info.pieces.subrange(
        20 * i as int,
        20 * i as int + 20,
    )
}

proof fn lemma_has_piece(info: InfoView, file: Seq<u8>, i: nat)
    requires
        0 < info.piece_len <= usize::MAX,
    ensures
        info.has_piece(Some(file), i) <==> stands_in(info, file, i),
{
    let size = info.piece_len as nat;
    lemma_chunk_step(file.len(), size, i);
    assert(i * size == i * info.piece_len as int);
    if i * size < file.len() {
        let end = if i * size + size < file.len() {
            (i * size + size) as int
        } else {
            file.len() as int
        };
        assert(chunk(file, size, i) =~= file.subrange((i * size) as int, end));
    }
}

/// Of the first `n` pieces, just those wait that do not stand in the file, each
/// once and in their order, and each as its own task.
pub proof fn law_missing_pieces_wait(info: InfoView, file: Seq<u8>, n: nat)
    requires
        0 < info.piece_len <= usize::MAX,
        n <= usize::MAX,
    ensures
        forall|i: nat| i < n ==> (#[trigger] waits(info.works(Some(file), n), i) <==> !stands_in(
            info,
            file,
            i,
        )),
        forall|k: int|
            0 <= k < info.works(Some(file), n).len() ==> {
                &&& (#[trigger] info.works(Some(file), n)[k]).index < n
                &&& info.works(Some(file), n)[k] == info.work(
                    info.works(Some(file), n)[k].index as nat,
                )
            },
        forall|k: int, l: int|
            0 <= k < l < info.works(Some(file), n).len() ==> (#[trigger] info.works(
                Some(file),
                n,
            )[k]).index < (#[trigger] info.works(Some(file), n)[l]).index,
    decreases n,
{
    let works = info.works(Some(file), n);
    if n > 0 {
        let last = (n - 1) as nat;
        let before = info.works(Some(file), last);
        law_missing_pieces_wait(info, file, last);
        lemma_has_piece(info, file, last);
        assert forall|i: nat| i < n implies (#[trigger] waits(works, i) <==> !stands_in(
            info,
            file,
            i,
        )) by {
            if i < last {
                assert(waits(before, i) <==> !stands_in(info, file, i));
                if waits(before, i) {
                    let k = choose|k: int|
                        0 <= k < before.len() && (#[trigger] before[k]).index == i;
                    assert(works[k].index == i);
                }
                if waits(works, i) {
                    let k = choose|k: int| 0 <= k < works.len() && (#[trigger] works[k]).index == i;
                    assert(before[k].index == i);
                }
            } else if stands_in(info, file, i) {
                if waits(works, i) {
                    let k = choose|k: int| 0 <= k < works.len() && (#[trigger] works[k]).index == i;
                    assert(before[k].index < last);
                }
            } else {
                assert(works[works.len() - 1].index == i);
            }
        }
    }
}

/// The task for a piece names it, and holds its digest and its length: that of
/// all pieces, but for the last, which ends where the file ends.
pub proof fn law_task_is_of_piece(info: InfoView, i: nat)
    requires
        i <= usize::MAX,
        info.piece_len > 0,
        info.length is Some,
        i * info.piece_len < info.length->0,
    ensures
        info.work(i).index == i,
        info.work(i).hash == info.pieces.subrange(20 * i as int, 20 * i as int + 20),
        i * info.piece_len + info.piece_len <= info.length->0 && info.piece_len <= u32::MAX
            ==> info.work(i).len == info.piece_len,
        i * info.piece_len + info.piece_len > info.length->0 && info.length->0 - i * info.piece_len
            <= u32::MAX ==> info.work(i).len == info.length->0 - i * info.piece_len,
{
}

/// The missing pieces of a torrent can be queued, whatever is in the file, if its
/// pieces have a length, the file's length is known and their places fit in
/// 64 bits. There may be many of them, but not so many that their number times
/// 128 is no size.
pub proof fn law_consistent_torrent_can_be_queued(info: InfoView, file: Option<Seq<u8>>)
    requires
        0 < info.piece_len <= usize::MAX,
        info.length is Some,
        info.length->0 >= 0,
        (info.pieces.len() / 20) * 128 <= usize::MAX,
        (info.pieces.len() / 20) * info.piece_len <= i64::MAX,
    ensures
        info.can_enqueue(file),
{
    assert forall|i: nat|
        i < info.piece_count() && !#[trigger] info.has_piece(file, i) implies info.has_extent(i) by {
        let size = info.piece_len as int;
        let count = info.piece_count();
        assert(0 <= i * size && i * size + size <= count * size) by (nonlinear_arith)
            requires
                i + 1 <= count,
                size > 0,
        ;
    }
}

/// The model of a task has all that the task has.
pub proof fn law_task_is_modelled(work: PieceWork)
    ensures
        work@.index == work.index,
        work@.hash == work.hash@,
        work@.len == work.len,
{
}

} // verus!
