//! How the blocks that a peer is asked for make up a piece.
use vstd::prelude::*;

use crate::bytes::{be32, be32_value, lemma_be32_value};
use crate::download::{
    block_message, request_message, PieceDownloadView, MAX_BACKLOG, MAX_BLOCKSIZE, MAX_PIECE,
};
use crate::message::MessageView;
use crate::opcode;

verus! {

/// Where block `k` of a piece of `len` bytes begins; the piece's end if there
/// is no such block.
pub open spec fn block_begin(len: nat, k: nat) -> nat {
    if k * MAX_BLOCKSIZE < len {
        k * MAX_BLOCKSIZE as nat
    } else {
        len
    }
}

/// The length of block `k`.
pub open spec fn block_len(len: nat, k: nat) -> nat {
    (block_begin(len, k + 1) - block_begin(len, k)) as nat
}

/// The number of blocks in a piece of `len` bytes.
pub open spec fn block_count(len: nat) -> nat {
    (len + MAX_BLOCKSIZE - 1) as nat / MAX_BLOCKSIZE as nat
}

/// The number of blocks that have been asked for.
pub open spec fn blocks_requested(download: PieceDownloadView) -> nat {
    block_count(download.requested as nat)
}

/// The blocks that are asked for follow one another without gap or overlap:
/// the request that is due asks for the first block that has not been asked
/// for, and for all of it.
pub proof fn law_requests_in_order(download: PieceDownloadView)
    requires
        download.wf(),
        download.requested < download.buf.len(),
    ensures
        download.requested == block_begin(download.buf.len(), blocks_requested(download)),
        download.next_len() == block_len(download.buf.len(), blocks_requested(download)),
        download.next_len() > 0,
        download.next_request() == request_message(
            download.index as u32,
            block_begin(download.buf.len(), blocks_requested(download)) as u32,
            block_len(download.buf.len(), blocks_requested(download)) as u32,
        ),
        blocks_requested(download.after_request()) == blocks_requested(download) + 1,
        download.backlog < MAX_BACKLOG ==> download.after_request().wf(),
{
}

/// The blocks cover the piece: they end where it ends, and every byte lies in
/// one.
pub proof fn law_blocks_cover(len: nat)
    ensures
        block_begin(len, 0) == 0,
        block_begin(len, block_count(len)) == len,
        forall|k: nat| k < block_count(len) ==> #[trigger] block_len(len, k) > 0,
        forall|k: nat| block_begin(len, k) <= #[trigger] block_begin(len, k + 1),
{
}

/// What happens in a download.
pub enum DownloadEvent {
    /// A request is sent.
    Request,
    /// Block `k` comes in.
    Answer(nat),
}

/// The message that gives block `k` of a piece with contents `data`.
pub open spec fn block_answer(index: u32, data: Seq<u8>, k: nat) -> MessageView {
    block_message(
        index,
        block_begin(data.len(), k) as u32,
        data.subrange(block_begin(data.len(), k) as int, block_begin(data.len(), k + 1) as int),
    )
}

/// The download of a piece with contents `data` after some events.
pub open spec fn progress(index: usize, data: Seq<u8>, events: Seq<DownloadEvent>) ->
    PieceDownloadView
    decreases events.len(),
{
    if events.len() == 0 {
        PieceDownloadView::start(index, data.len() as u32)
    } else {
        let before = progress(index, data, events.drop_last());
        match events.last() {
            DownloadEvent::Request => before.after_request(),
            DownloadEvent::Answer(k) => before.after_block(
                block_answer(index as u32, data, k).payload,
            ),
        }
    }
}

/// The blocks that came in, in the order in which they did.
pub open spec fn answered(events: Seq<DownloadEvent>) -> Seq<nat>
    decreases events.len(),
{
    if events.len() == 0 {
        seq![]
    } else {
        match events.last() {
            DownloadEvent::Request => answered(events.drop_last()),
            DownloadEvent::Answer(k) => answered(events.drop_last()).push(k),
        }
    }
}

/// Whether requests were sent only when due, and blocks came in, in any order,
/// only after they had been asked for and once each.
pub open spec fn orderly(index: usize, data: Seq<u8>, events: Seq<DownloadEvent>) -> bool
    decreases events.len(),
{
    events.len() > 0 ==> {
        let before = progress(index, data, events.drop_last());
        &&& orderly(index, data, events.drop_last())
        &&& match events.last() {
            DownloadEvent::Request => before.wants_request(false),
            DownloadEvent::Answer(k) => k < blocks_requested(before) && !answered(
                events.drop_last(),
            ).contains(k),
        }
    }
}

/// The number of bytes in some blocks.
pub open spec fn total_len(len: nat, ks: Seq<nat>) -> nat
    decreases ks.len(),
{
    if ks.len() == 0 {
        0
    } else {
        total_len(len, ks.drop_last()) + block_len(len, ks.last())
    }
}

proof fn lemma_total_remove(len: nat, ks: Seq<nat>, i: int)
    requires
        0 <= i < ks.len(),
    ensures
        total_len(len, ks) == total_len(len, ks.remove(i)) + block_len(len, ks[i]),
    decreases ks.len(),
{
    if i == ks.len() - 1 {
        assert(ks.remove(i) =~= ks.drop_last());
    } else {
        lemma_total_remove(len, ks.drop_last(), i);
        assert(ks.remove(i).drop_last() =~= ks.drop_last().remove(i));
        assert(ks.remove(i).last() == ks.last());
    }
}

proof fn lemma_distinct_blocks(len: nat, ks: Seq<nat>, n: nat)
    requires
        ks.no_duplicates(),
        forall|i: int| 0 <= i < ks.len() ==> #[trigger] ks[i] < n,
    ensures
        ks.len() <= n,
        total_len(len, ks) <= block_begin(len, n),
    decreases n,
{
    if n == 0 {
        assert(ks.len() == 0) by {
            if ks.len() > 0 {
                assert(ks[0] < n);
            }
        }
    } else {
        let m = (n - 1) as nat;
        if ks.contains(m) {
            let i = choose|i: int| 0 <= i < ks.len() && ks[i] == m;
            let rest = ks.remove(i);
            assert forall|j: int| 0 <= j < rest.len() implies #[trigger] rest[j] < m by {
                let at = if j < i { j } else { j + 1 };
                assert(rest[j] == ks[at]);
                assert(ks[at] < n);
            }
            assert(rest.no_duplicates()) by {
                assert forall|a: int, b: int|
                    0 <= a < rest.len() && 0 <= b < rest.len() && a != b implies rest[a]
                    != rest[b] by {
                    let x = if a < i { a } else { a + 1 };
                    let y = if b < i { b } else { b + 1 };
                    assert(rest[a] == ks[x] && rest[b] == ks[y]);
                }
            }
            lemma_distinct_blocks(len, rest, m);
            lemma_total_remove(len, ks, i);
            assert(block_begin(len, m) <= block_begin(len, m + 1));
        } else {
            assert forall|j: int| 0 <= j < ks.len() implies #[trigger] ks[j] < m by {
                assert(ks[j] < n);
                assert(ks.contains(ks[j]));
            }
            lemma_distinct_blocks(len, ks, m);
        }
    }
}

proof fn lemma_all_blocks(len: nat, ks: Seq<nat>, n: nat)
    requires
        forall|k: nat| k < n ==> #[trigger] ks.contains(k),
    ensures
        total_len(len, ks) >= block_begin(len, n),
    decreases n,
{
    if n > 0 {
        let m = (n - 1) as nat;
        assert(ks.contains(m));
        let i = choose|i: int| 0 <= i < ks.len() && ks[i] == m;
        let rest = ks.remove(i);
        assert forall|k: nat| k < m implies #[trigger] rest.contains(k) by {
            assert(ks.contains(k));
            let j = choose|j: int| 0 <= j < ks.len() && ks[j] == k;
            let at = if j < i { j } else { j - 1 };
            assert(rest[at] == k);
        }
        lemma_all_blocks(len, rest, m);
        lemma_total_remove(len, ks, i);
        assert(block_begin(len, m) <= block_begin(len, m + 1));
    }
}

/// What holds at any time of an orderly download in which the blocks `ks` have
/// come in.
spec fn sound(index: usize, data: Seq<u8>, now: PieceDownloadView, ks: Seq<nat>) -> bool {
    &&& now.wf()
    &&& now.index == index
    &&& now.buf.len() == data.len()
    &&& ks.no_duplicates()
    &&& forall|i: int| 0 <= i < ks.len() ==> #[trigger] ks[i] < blocks_requested(now)
    &&& now.downloaded == total_len(data.len(), ks)
    &&& now.backlog == blocks_requested(now) - ks.len()
    &&& forall|k: nat, i: int|
        #![trigger ks.contains(k), now.buf[i]]
        ks.contains(k) && block_begin(data.len(), k) <= i < block_begin(data.len(), k + 1)
            ==> now.buf[i] == data[i]
}

/// A block that comes in as it was asked for is taken in.
proof fn lemma_answer(
    download: PieceDownloadView,
    index: u32,
    data: Seq<u8>,
    k: nat,
)
    requires
        download.wf(),
        download.index == index,
        download.buf.len() == data.len(),
        k < block_count(data.len()),
    ensures
        ({
            let payload = block_answer(index, data, k).payload;
            let begin = block_begin(data.len(), k);
            &&& payload.len() == 8 + block_len(data.len(), k)
            &&& be32_value(payload) == index
            &&& be32_value(payload.skip(4)) == begin
            &&& payload.skip(8) == data.subrange(
                begin as int,
                block_begin(data.len(), k + 1) as int,
            )
            &&& download.refusal(payload) is None
        }),
{
    let begin = block_begin(data.len(), k);
    let block = data.subrange(begin as int, block_begin(data.len(), k + 1) as int);
    let payload = block_answer(index, data, k).payload;
    assert(payload =~= be32(index) + (be32(begin as u32) + block));
    lemma_be32_value(index, be32(begin as u32) + block);
    assert(payload.skip(4) =~= be32(begin as u32) + block);
    lemma_be32_value(begin as u32, block);
    assert(payload.skip(8) =~= block);
}

/// A request keeps a download sound.
proof fn lemma_request_keeps(index: usize, data: Seq<u8>, before: PieceDownloadView, ks: Seq<nat>)
    requires
        sound(index, data, before, ks),
        before.wants_request(false),
    ensures
        sound(index, data, before.after_request(), ks),
{
    let now = before.after_request();
    law_requests_in_order(before);
    assert forall|i: int| 0 <= i < ks.len() implies #[trigger] ks[i] < blocks_requested(now) by {
        assert(ks[i] < blocks_requested(before));
    }
}

/// A block that was asked for and comes in for the first time keeps a download
/// sound.
proof fn lemma_answer_keeps(
    index: usize,
    data: Seq<u8>,
    before: PieceDownloadView,
    ks: Seq<nat>,
    k: nat,
)
    requires
        data.len() <= MAX_PIECE,
        index <= u32::MAX,
        sound(index, data, before, ks),
        k < blocks_requested(before),
        !ks.contains(k),
    ensures
        sound(
            index,
            data,
            before.after_block(block_answer(index as u32, data, k).payload),
            ks.push(k),
        ),
{
    let len = data.len();
    let now = before.after_block(block_answer(index as u32, data, k).payload);
    let more = ks.push(k);
    let n = blocks_requested(before);
    let begin = block_begin(len, k);
    let end = block_begin(len, k + 1);
    lemma_answer(before, index as u32, data, k);
    assert(more.no_duplicates());
    assert(more.drop_last() =~= ks);
    assert forall|i: int| 0 <= i < more.len() implies #[trigger] more[i] < n by {
        if i < ks.len() {
            assert(more[i] == ks[i]);
        }
    }
    lemma_distinct_blocks(len, more, n);
    assert(total_len(len, more) == total_len(len, ks) + block_len(len, k));
    assert forall|k1: nat, i: int|
        #![trigger more.contains(k1), now.buf[i]]
        more.contains(k1) && block_begin(len, k1) <= i < block_begin(
            len,
            k1 + 1,
        ) implies now.buf[i] == data[i] by {
        if !(begin <= i < end) {
            let j = choose|j: int| 0 <= j < more.len() && more[j] == k1;
            assert(ks[j] == k1);
            assert(ks.contains(k1));
            assert(before.buf[i] == data[i]);
        }
    }
}

proof fn lemma_sound(index: usize, data: Seq<u8>, events: Seq<DownloadEvent>)
    requires
        data.len() <= MAX_PIECE,
        index <= u32::MAX,
        orderly(index, data, events),
    ensures
        sound(index, data, progress(index, data, events), answered(events)),
    decreases events.len(),
{
    if events.len() == 0 {
        assert(answered(events) =~= seq![]);
    } else {
        let before = progress(index, data, events.drop_last());
        let ks = answered(events.drop_last());
        lemma_sound(index, data, events.drop_last());
        match events.last() {
            DownloadEvent::Request => {
                lemma_request_keeps(index, data, before, ks);
            },
            DownloadEvent::Answer(k) => {
                lemma_answer_keeps(index, data, before, ks, k);
            },
        }
    }
}

/// A peer that answers every request once and truthfully, in whatever order, is
/// never refused, and in the end the piece is what the peer has: the download
/// is done when all blocks have come in, not earlier, and then its contents
/// are the piece's.
pub proof fn law_truthful_answers_rebuild_piece(
    index: usize,
    data: Seq<u8>,
    events: Seq<DownloadEvent>,
)
    requires
        data.len() <= MAX_PIECE,
        index <= u32::MAX,
        orderly(index, data, events),
    ensures
        ({
            let now = progress(index, data, events);
            &&& now.wf()
            &&& now.done() <==> forall|k: nat|
                k < block_count(data.len()) ==> #[trigger] answered(events).contains(k)
            &&& now.done() ==> now.buf == data
            &&& forall|k: nat|
                k < blocks_requested(now) && !answered(events).contains(k) ==> {
                    &&& now.can_take(#[trigger] block_answer(index as u32, data, k))
                    &&& now.refusal(block_answer(index as u32, data, k).payload) is None
                }
        }),
{
    let now = progress(index, data, events);
    let ks = answered(events);
    let len = data.len();
    let count = block_count(len);
    lemma_sound(index, data, events);
    law_blocks_cover(len);
    assert forall|i: int| 0 <= i < ks.len() implies #[trigger] ks[i] < count by {}
    if now.done() {
        assert forall|k: nat| k < count implies #[trigger] ks.contains(k) by {
            if !ks.contains(k) {
                let more = ks.push(k);
                assert(more.no_duplicates());
                assert(more.drop_last() =~= ks);
                lemma_distinct_blocks(len, more, count);
                assert(block_len(len, k) > 0);
            }
        }
        assert forall|i: int| 0 <= i < len implies now.buf[i] == data[i] by {
            let k = (i / MAX_BLOCKSIZE as int) as nat;
            assert(ks.contains(k));
            assert(block_begin(len, k) <= i < block_begin(len, k + 1));
        }
        assert(now.buf =~= data);
    }
    if forall|k: nat| k < count ==> #[trigger] ks.contains(k) {
        lemma_all_blocks(len, ks, count);
    }
    assert forall|k: nat| k < blocks_requested(now) && !ks.contains(k) implies {
        &&& now.can_take(#[trigger] block_answer(index as u32, data, k))
        &&& now.refusal(block_answer(index as u32, data, k).payload) is None
    } by {
        lemma_answer(now, index as u32, data, k);
        let more = ks.push(k);
        assert(more.drop_last() =~= ks);
        assert(more.no_duplicates());
        lemma_distinct_blocks(len, more, count);
    }
}

/// What changes a download, whatever the peer sends.
pub enum DownloadChange {
    /// A request is sent.
    Requested,
    /// A block with this payload is taken in.
    TakenIn(Seq<u8>),
}

/// A download after some changes.
pub open spec fn changed(index: usize, len: u32, changes: Seq<DownloadChange>) -> PieceDownloadView
    decreases changes.len(),
{
    if changes.len() == 0 {
        PieceDownloadView::start(index, len)
    } else {
        let before = changed(index, len, changes.drop_last());
        match changes.last() {
            DownloadChange::Requested => before.after_request(),
            DownloadChange::TakenIn(payload) => before.after_block(payload),
        }
    }
}

/// Whether requests were sent only when due, and only blocks were taken in that
/// could be dealt with and were not refused.
pub open spec fn could_change(index: usize, len: u32, changes: Seq<DownloadChange>) -> bool
    decreases changes.len(),
{
    changes.len() > 0 ==> {
        let before = changed(index, len, changes.drop_last());
        &&& could_change(index, len, changes.drop_last())
        &&& match changes.last() {
            DownloadChange::Requested => before.wants_request(false),
            DownloadChange::TakenIn(payload) => {
                &&& before.can_take(MessageView { id: opcode::PIECE, payload })
                &&& before.refusal(payload) is None
            },
        }
    }
}

/// How many requests were sent.
pub open spec fn requests_sent(changes: Seq<DownloadChange>) -> nat
    decreases changes.len(),
{
    if changes.len() == 0 {
        0
    } else {
        requests_sent(changes.drop_last()) + if changes.last() is Requested {
            1nat
        } else {
            0nat
        }
    }
}

/// How many blocks were taken in.
pub open spec fn blocks_taken(changes: Seq<DownloadChange>) -> nat
    decreases changes.len(),
{
    if changes.len() == 0 {
        0
    } else {
        blocks_taken(changes.drop_last()) + if changes.last() is TakenIn {
            1nat
        } else {
            0nat
        }
    }
}

/// How many bytes were in the blocks that were taken in.
pub open spec fn bytes_taken(changes: Seq<DownloadChange>) -> int
    decreases changes.len(),
{
    if changes.len() == 0 {
        0
    } else {
        bytes_taken(changes.drop_last()) + match changes.last() {
            DownloadChange::Requested => 0,
            DownloadChange::TakenIn(payload) => payload.len() - 8,
        }
    }
}

/// The counts of a download are what they are kept for, whatever the peer sends:
/// the backlog is the number of requests that were sent less that of the blocks
/// that were taken in, as many blocks have been asked for as requests were
/// sent, and as many bytes have come in as those blocks held.
pub proof fn law_counts_are_kept(index: usize, len: u32, changes: Seq<DownloadChange>)
    requires
        len <= MAX_PIECE,
        could_change(index, len, changes),
    ensures
        changed(index, len, changes).wf(),
        changed(index, len, changes).index == index,
        changed(index, len, changes).buf.len() == len,
        changed(index, len, changes).backlog == requests_sent(changes) - blocks_taken(changes),
        blocks_requested(changed(index, len, changes)) == requests_sent(changes),
        changed(index, len, changes).downloaded == bytes_taken(changes),
    decreases changes.len(),
{
    if changes.len() > 0 {
        let before = changed(index, len, changes.drop_last());
        law_counts_are_kept(index, len, changes.drop_last());
        match changes.last() {
            DownloadChange::Requested => {
                law_requests_in_order(before);
            },
            DownloadChange::TakenIn(payload) => {},
        }
    }
}

} // verus!
