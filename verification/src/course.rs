//! The course of a download: the queue, the workers and the collector together.
use vstd::multiset::Multiset;
use vstd::prelude::*;

use crate::chunks::{
    chunk, chunk_count, chunk_start, lemma_chunk_count, lemma_chunk_of, lemma_chunk_step,
};
use crate::collector::{can_collect, collect, offset, written};
use crate::digest::sha1_digest;
use crate::metainfo::InfoView;
use crate::opcode;
use crate::peer::PeerView;
use crate::pieces::{law_no_file_misses_all, law_pieces_are_chunks};
use crate::torrent::describes_file;
use crate::work::{next_of, DownloadView, PieceWork};
use crate::worker::{
    asks_for, law_delivered_pieces_match, law_handed_back_unchanged, law_pieces_are_kept,
    law_request_is_for_held_piece, law_worker_stays_wf, WorkerActionView, WorkerEventView,
    WorkerView,
};

verus! {

/// How far a download has come.
#[verifier::ext_equal]
pub struct Course {
    /// The pieces in the queue.
    pub waiting: Seq<PieceWork>,
    /// How many pieces the queue was made for.
    pub limit: nat,
    /// The length of every piece but the last.
    pub piece_len: i64,
    /// The workers, those that have ended too.
    pub workers: Seq<WorkerView>,
    /// What workers have handed over and the collector has not dealt with.
    pub sent: Seq<DownloadView>,
    /// The pieces that the collector has gathered, with their contents.
    pub collected: Seq<(usize, Seq<u8>)>,
    /// The file.
    pub output: Seq<u8>,
    /// Whether the collector has gathered what it took for the last piece.
    pub done: bool,
}

/// What happens in a download.
pub enum CourseEvent {
    /// A peer gets a worker.
    Join,
    /// Something happens to a worker whose peer is in this state.
    Step(int, PeerView, WorkerEventView),
    /// A worker's connection breaks.
    Break(int),
    /// The collector deals with what was handed over first.
    Collect,
}

impl Course {
    /// A download before anything has happened.
    pub open spec fn start(
        waiting: Seq<PieceWork>,
        limit: nat,
        piece_len: i64,
        output: Seq<u8>,
    ) -> Course {
        Course {
            waiting,
            limit,
            piece_len,
            workers: seq![],
            sent: seq![],
            collected: seq![],
            output,
            done: false,
        }
    }

    /// Whether an event can happen. What a worker takes is what comes next out
    /// of the queue, and once all is done the collector does nothing more.
    pub open spec fn allows(self, event: CourseEvent) -> bool {
        match event {
            CourseEvent::Join => true,
            CourseEvent::Step(i, peer, event) => {
                &&& 0 <= i < self.workers.len()
                &&& self.workers[i].expects(peer, event)
                &&& event matches WorkerEventView::Taken(work) ==> work == next_of(self.waiting).0
            },
            CourseEvent::Break(i) => 0 <= i < self.workers.len(),
            CourseEvent::Collect => self.sent.len() > 0 && !self.done,
        }
    }

    /// How far the download has come after an event.
    pub open spec fn after(self, event: CourseEvent) -> Course {
        match event {
            CourseEvent::Join => Course { workers: self.workers.push(WorkerView::Fresh), ..self },
            CourseEvent::Step(i, peer, event) => {
                let (worker, action) = self.workers[i].step(peer, event);
                Course {
                    waiting: match event {
                        WorkerEventView::Taken(_) => next_of(self.waiting).1,
                        _ => self.waiting,
                    },
                    workers: self.workers.update(i, worker),
                    sent: match action {
                        WorkerActionView::HandBack(work) => self.sent.push(
                            DownloadView::Work(work),
                        ),
                        WorkerActionView::Deliver(index, buf) => self.sent.push(
                            DownloadView::Result(index, buf),
                        ),
                        _ => self.sent,
                    },
                    ..self
                }
            },
            CourseEvent::Break(i) => Course {
                workers: self.workers.update(i, WorkerView::Ended),
                sent: match self.workers[i].interrupted() {
                    Some(work) => self.sent.push(DownloadView::Work(work)),
                    None => self.sent,
                },
                ..self
            },
            CourseEvent::Collect => {
                let (_, waiting, write) = collect(
                    self.piece_len,
                    self.collected.len(),
                    self.waiting,
                    self.limit,
                    self.sent.first(),
                );
                Course {
                    waiting,
                    sent: self.sent.drop_first(),
                    collected: match self.sent.first() {
                        DownloadView::Result(index, buf) => self.collected.push((index, buf)),
                        DownloadView::Work(_) => self.collected,
                    },
                    output: match write {
                        Some(part) => written(self.output, part.begin as int, part.data),
                        None => self.output,
                    },
                    done: write matches Some(part) && part.done,
                    ..self
                }
            },
        }
    }

    /// The numbers of all pieces, wherever they are: in the queue, with workers,
    /// handed over or gathered.
    pub open spec fn indices(self) -> Multiset<usize> {
        work_indices(self.waiting).to_multiset().add(held_indices(self.workers)).add(
            sent_indices(self.sent).to_multiset(),
        ).add(collected_indices(self.collected).to_multiset())
    }
}

/// The numbers of some pieces.
pub open spec fn work_indices(works: Seq<PieceWork>) -> Seq<usize> {
    works.map_values(|work: PieceWork| work.index)
}

/// The numbers of the pieces that workers hold.
pub open spec fn held_indices(workers: Seq<WorkerView>) -> Multiset<usize>
    decreases workers.len(),
{
    if workers.len() == 0 {
        Multiset::empty()
    } else {
        held_indices(workers.drop_last()).add(workers.last().held().to_multiset())
    }
}

/// The number of the piece that is handed over.
pub open spec fn sent_index(download: DownloadView) -> usize {
    match download {
        DownloadView::Result(index, _) => index,
        DownloadView::Work(work) => work.index,
    }
}

/// The numbers of the pieces that have been handed over.
pub open spec fn sent_indices(sent: Seq<DownloadView>) -> Seq<usize> {
    sent.map_values(|download: DownloadView| sent_index(download))
}

/// The numbers of the pieces that have been gathered.
pub open spec fn collected_indices(collected: Seq<(usize, Seq<u8>)>) -> Seq<usize> {
    collected.map_values(|piece: (usize, Seq<u8>)| piece.0)
}

/// How far a download has come after some events.
pub open spec fn course(start: Course, events: Seq<CourseEvent>) -> Course
    decreases events.len(),
{
    if events.len() == 0 {
        start
    } else {
        course(start, events.drop_last()).after(events.last())
    }
}

/// Whether each of some events could happen when it did.
pub open spec fn possible(start: Course, events: Seq<CourseEvent>) -> bool
    decreases events.len(),
{
    events.len() > 0 ==> {
        &&& possible(start, events.drop_last())
        &&& course(start, events.drop_last()).allows(events.last())
    }
}

/// Whether some pieces have places of their own in a file: they are numbered
/// differently, none is longer than the pieces are, and places fit in 63 bits.
pub open spec fn have_places(works: Seq<PieceWork>, piece_len: i64) -> bool {
    &&& piece_len > 0
    &&& forall|i: int|
        0 <= i < works.len() ==> {
            &&& (#[trigger] works[i]).len <= piece_len
            &&& works[i].index * piece_len <= i64::MAX
        }
    &&& forall|i: int, j: int|
        0 <= i < works.len() && 0 <= j < works.len() && i != j ==> (#[trigger] works[i]).index != (
        #[trigger] works[j]).index
}

/// Whether contents are those of a piece: they have its length and its digest.
pub open spec fn is_content(work: PieceWork, buf: Seq<u8>) -> bool {
    &&& buf.len() == work.len
    &&& sha1_digest(buf) == work.hash@
}

/// Whether a piece stands in its place in a file, with the digest that it is to
/// have.
pub open spec fn in_place(file: Seq<u8>, piece_len: i64, work: PieceWork) -> bool {
    let at = work.index * piece_len;
    if work.len == 0 {
        is_content(work, seq![])
    } else {
        &&& at + work.len <= file.len()
        &&& is_content(work, file.subrange(at, at + work.len))
    }
}

/// Whether some numbered contents are those of one of the pieces.
pub open spec fn genuine(works: Seq<PieceWork>, index: usize, buf: Seq<u8>) -> bool {
    exists|work: PieceWork| #[trigger]
        works.contains(work) && work.index == index && is_content(work, buf)
}

proof fn lemma_held_push(workers: Seq<WorkerView>, worker: WorkerView)
    ensures
        held_indices(workers.push(worker)) == held_indices(workers).add(
            worker.held().to_multiset(),
        ),
{
    assert(workers.push(worker).drop_last() =~= workers);
}

proof fn lemma_held_update(workers: Seq<WorkerView>, i: int, worker: WorkerView)
    requires
        0 <= i < workers.len(),
    ensures
        held_indices(workers.update(i, worker)).add(workers[i].held().to_multiset())
            == held_indices(workers).add(worker.held().to_multiset()),
    decreases workers.len(),
{
    let updated = workers.update(i, worker);
    if i == workers.len() - 1 {
        assert(updated.drop_last() =~= workers.drop_last());
    } else {
        lemma_held_update(workers.drop_last(), i, worker);
        assert(updated.drop_last() =~= workers.drop_last().update(i, worker));
    }
    let left = held_indices(updated).add(workers[i].held().to_multiset());
    let right = held_indices(workers).add(worker.held().to_multiset());
    assert forall|x: usize| #[trigger] left.count(x) == right.count(x) by {
        if i < workers.len() - 1 {
            assert(held_indices(updated.drop_last()).add(workers[i].held().to_multiset()).count(x)
                == held_indices(workers.drop_last()).add(worker.held().to_multiset()).count(x));
        }
    }
    assert(left =~= right);
}

proof fn lemma_work_push(works: Seq<PieceWork>, work: PieceWork)
    ensures
        work_indices(works.push(work)).to_multiset() == work_indices(works).to_multiset().insert(
            work.index,
        ),
{
    broadcast use vstd::seq_lib::group_to_multiset_ensures;

    assert(work_indices(works.push(work)) =~= work_indices(works).push(work.index));
}

proof fn lemma_work_first(works: Seq<PieceWork>)
    requires
        works.len() > 0,
    ensures
        work_indices(works).to_multiset() == work_indices(
            works.drop_first(),
        ).to_multiset().insert(works.first().index),
{
    broadcast use vstd::seq_lib::group_to_multiset_ensures;

    let all = work_indices(works);
    assert(work_indices(works.drop_first()) =~= all.remove(0));
    assert(all.contains(all[0]));
    assert(all.to_multiset() =~= all.remove(0).to_multiset().insert(all[0]));
}

proof fn lemma_sent_push(sent: Seq<DownloadView>, download: DownloadView)
    ensures
        sent_indices(sent.push(download)).to_multiset() == sent_indices(
            sent,
        ).to_multiset().insert(sent_index(download)),
{
    broadcast use vstd::seq_lib::group_to_multiset_ensures;

    assert(sent_indices(sent.push(download)) =~= sent_indices(sent).push(sent_index(download)));
}

proof fn lemma_sent_first(sent: Seq<DownloadView>)
    requires
        sent.len() > 0,
    ensures
        sent_indices(sent).to_multiset() == sent_indices(sent.drop_first()).to_multiset().insert(
            sent_index(sent.first()),
        ),
{
    broadcast use vstd::seq_lib::group_to_multiset_ensures;

    let all = sent_indices(sent);
    assert(sent_indices(sent.drop_first()) =~= all.remove(0));
    assert(all.contains(all[0]));
    assert(all.to_multiset() =~= all.remove(0).to_multiset().insert(all[0]));
}

proof fn lemma_collected_push(collected: Seq<(usize, Seq<u8>)>, index: usize, buf: Seq<u8>)
    ensures
        collected_indices(collected.push((index, buf))).to_multiset() == collected_indices(
            collected,
        ).to_multiset().insert(index),
{
    broadcast use vstd::seq_lib::group_to_multiset_ensures;

    assert(collected_indices(collected.push((index, buf))) =~= collected_indices(collected).push(
        index,
    ));
}

proof fn lemma_short_multiset(s: Seq<usize>)
    requires
        s.len() <= 1,
    ensures
        s.to_multiset() == if s.len() == 0 {
            Multiset::empty()
        } else {
            Multiset::empty().insert(s[0])
        },
{
    broadcast use vstd::seq_lib::group_to_multiset_ensures;

    if s.len() == 0 {
        assert(s.to_multiset() =~= Multiset::empty());
    } else {
        let none = Seq::<usize>::empty();
        assert(s =~= none.push(s[0]));
        assert(none.to_multiset() =~= Multiset::empty());
    }
}

/// Whatever happens, no piece is lost or doubled: each is in the queue, with a
/// worker, handed over or gathered. The one exception is a worker whose
/// connection breaks while it announces a piece: that piece is then gone.
pub proof fn law_no_piece_is_lost(now: Course, event: CourseEvent)
    requires
        now.allows(event),
        forall|i: int| 0 <= i < now.workers.len() ==> (#[trigger] now.workers[i]).wf(),
    ensures
        now.after(event).indices().subset_of(now.indices()),
        !(event matches CourseEvent::Break(i) && now.workers[i] is Announcing)
            ==> now.after(event).indices() == now.indices(),
{
    let after = now.after(event);
    match event {
        CourseEvent::Join => {
            lemma_held_push(now.workers, WorkerView::Fresh);
            lemma_short_multiset(WorkerView::Fresh.held());
            assert(after.indices() =~= now.indices());
        },
        CourseEvent::Step(i, peer, event) => {
            let before = now.workers[i];
            let (worker, action) = before.step(peer, event);
            assert(before.wf());
            law_pieces_are_kept(before, peer, event);
            lemma_held_update(now.workers, i, worker);
            lemma_short_multiset(before.held());
            lemma_short_multiset(worker.held());
            assert(before.held() + event.given() == worker.held() + action.handed());
            match event {
                WorkerEventView::Taken(Some(work)) => {
                    lemma_work_first(now.waiting);
                    assert((before.held() + event.given()).len() == 1);
                    assert((before.held() + event.given())[0] == work.index);
                },
                _ => {
                    assert(before.held() + event.given() =~= before.held());
                },
            }
            match action {
                WorkerActionView::HandBack(work) => {
                    lemma_sent_push(now.sent, DownloadView::Work(work));
                    assert(worker.held() + action.handed() =~= seq![work.index]);
                },
                WorkerActionView::Deliver(index, buf) => {
                    lemma_sent_push(now.sent, DownloadView::Result(index, buf));
                    assert(worker.held() + action.handed() =~= seq![index]);
                },
                _ => {
                    assert(worker.held() + action.handed() =~= worker.held());
                },
            }
            assert forall|x: usize| #[trigger] after.indices().count(x) == now.indices().count(
                x,
            ) by {
                assert(held_indices(after.workers).add(before.held().to_multiset()).count(x)
                    == held_indices(now.workers).add(worker.held().to_multiset()).count(x));
            }
            assert(after.indices() =~= now.indices());
        },
        CourseEvent::Break(i) => {
            let before = now.workers[i];
            lemma_held_update(now.workers, i, WorkerView::Ended);
            lemma_short_multiset(before.held());
            lemma_short_multiset(WorkerView::Ended.held());
            match before.interrupted() {
                Some(work) => {
                    lemma_sent_push(now.sent, DownloadView::Work(work));
                },
                None => {},
            }
            assert forall|x: usize| #[trigger] after.indices().count(x) <= now.indices().count(
                x,
            ) by {
                assert(held_indices(after.workers).add(before.held().to_multiset()).count(x)
                    == held_indices(now.workers).add(WorkerView::Ended.held().to_multiset()).count(x));
            }
            if !(before is Announcing) {
                assert forall|x: usize| #[trigger] after.indices().count(x) == now.indices().count(
                    x,
                ) by {
                    assert(held_indices(after.workers).add(before.held().to_multiset()).count(x)
                        == held_indices(now.workers).add(
                        WorkerView::Ended.held().to_multiset(),
                    ).count(x));
                }
                assert(after.indices() =~= now.indices());
            }
        },
        CourseEvent::Collect => {
            lemma_sent_first(now.sent);
            match now.sent.first() {
                DownloadView::Result(index, buf) => {
                    lemma_collected_push(now.collected, index, buf);
                },
                DownloadView::Work(work) => {
                    lemma_work_push(now.waiting, work);
                },
            }
            assert(after.indices() =~= now.indices());
        },
    }
}

/// What holds of a worker at any time.
spec fn worker_sound(works: Seq<PieceWork>, worker: WorkerView) -> bool {
    &&& worker.wf()
    &&& match worker {
        WorkerView::Fetching(work, _) => works.contains(work),
        WorkerView::Announcing(index, buf) => genuine(works, index, buf),
        _ => true,
    }
}

/// What holds at any time of what is handed over.
spec fn download_sound(works: Seq<PieceWork>, download: DownloadView) -> bool {
    match download {
        DownloadView::Result(index, buf) => genuine(works, index, buf),
        DownloadView::Work(work) => works.contains(work),
    }
}

/// Whether contents stand in the file at the place of the piece with this
/// number.
spec fn stands_in(file: Seq<u8>, piece_len: i64, index: usize, buf: Seq<u8>) -> bool {
    let at = index * piece_len;
    buf.len() > 0 ==> {
        &&& at + buf.len() <= file.len()
        &&& file.subrange(at, at + buf.len()) == buf
    }
}

/// What holds at any time of a download that started with `works` in the queue.
spec fn sound(works: Seq<PieceWork>, now: Course) -> bool {
    &&& have_places(works, now.piece_len)
    &&& works.len() <= now.limit <= usize::MAX
    &&& forall|i: int| 0 <= i < now.waiting.len() ==> works.contains(#[trigger] now.waiting[i])
    &&& forall|i: int|
        0 <= i < now.workers.len() ==> worker_sound(works, #[trigger] now.workers[i])
    &&& forall|i: int| 0 <= i < now.sent.len() ==> download_sound(works, #[trigger] now.sent[i])
    &&& forall|i: int|
        0 <= i < now.collected.len() ==> {
            &&& genuine(works, (#[trigger] now.collected[i]).0, now.collected[i].1)
            &&& stands_in(now.output, now.piece_len, now.collected[i].0, now.collected[i].1)
        }
    &&& now.indices().subset_of(work_indices(works).to_multiset())
    &&& now.done ==> now.collected.len() == now.limit
}

/// Pieces that have places of their own occur once each.
proof fn lemma_once(works: Seq<PieceWork>, piece_len: i64, x: usize)
    requires
        have_places(works, piece_len),
    ensures
        work_indices(works).to_multiset().count(x) <= 1,
{
    broadcast use vstd::seq_lib::group_to_multiset_ensures;

    let all = work_indices(works);
    assert(all.no_duplicates()) by {
        assert forall|i: int, j: int|
            0 <= i < all.len() && 0 <= j < all.len() && i != j implies all[i] != all[j] by {
            assert(works[i].index != works[j].index);
        }
    }
    all.lemma_multiset_has_no_duplicates();
}

/// Two pieces with different numbers stand in different places.
proof fn lemma_apart(piece_len: i64, x: usize, y: usize, len: nat)
    requires
        piece_len > 0,
        x < y,
        len <= piece_len,
    ensures
        x * piece_len + len <= y * piece_len,
{
    assert(x * piece_len + piece_len <= y * piece_len) by (nonlinear_arith)
        requires
            x + 1 <= y,
            piece_len > 0,
    ;
}

/// The place that the collector gives a piece is the piece's own.
proof fn lemma_offset(piece_len: i64, index: usize)
    requires
        piece_len > 0,
        index * piece_len <= i64::MAX,
    ensures
        offset(index, piece_len) == index * piece_len,
        0 <= index * piece_len,
{
    assert(index <= index * piece_len) by (nonlinear_arith)
        requires
            piece_len > 0,
            index >= 0,
    ;
}

/// Writing one piece leaves another where it is.
proof fn lemma_write_keeps(
    file: Seq<u8>,
    piece_len: i64,
    index: usize,
    buf: Seq<u8>,
    other: usize,
    kept: Seq<u8>,
)
    requires
        piece_len > 0,
        buf.len() <= piece_len,
        kept.len() <= piece_len,
        index != other,
        stands_in(file, piece_len, other, kept),
    ensures
        stands_in(written(file, index * piece_len, buf), piece_len, other, kept),
{
    if kept.len() > 0 {
        let at = other * piece_len;
        let after = written(file, index * piece_len, buf);
        if index < other {
            lemma_apart(piece_len, index, other, buf.len());
        } else {
            lemma_apart(piece_len, other, index, kept.len());
        }
        assert(0 <= other * piece_len) by (nonlinear_arith)
            requires
                piece_len > 0,
                other >= 0,
        ;
        assert forall|i: int| 0 <= i < kept.len() implies after[at + i] == kept[i] by {
            assert(file.subrange(at, at + kept.len())[i] == file[at + i]);
        }
        assert(after.subrange(at, at + kept.len()) =~= kept);
    }
}

proof fn lemma_start_sound(
    works: Seq<PieceWork>,
    limit: nat,
    piece_len: i64,
    output: Seq<u8>,
)
    requires
        have_places(works, piece_len),
        works.len() <= limit <= usize::MAX,
    ensures
        sound(works, Course::start(works, limit, piece_len, output)),
{
    broadcast use vstd::seq_lib::group_to_multiset_ensures;

    let now = Course::start(works, limit, piece_len, output);
    lemma_short_multiset(sent_indices(now.sent));
    lemma_short_multiset(collected_indices(now.collected));
    assert(now.indices() =~= work_indices(works).to_multiset());
}

proof fn lemma_step_sound(works: Seq<PieceWork>, now: Course, event: CourseEvent)
    requires
        sound(works, now),
        now.allows(event),
    ensures
        sound(works, now.after(event)),
{
    let after = now.after(event);
    law_no_piece_is_lost(now, event);
    match event {
        CourseEvent::Join => {},
        CourseEvent::Step(i, peer, event) => {
            let before = now.workers[i];
            let (worker, action) = before.step(peer, event);
            assert(worker_sound(works, before));
            law_worker_stays_wf(before, peer, event);
            law_handed_back_unchanged(before, peer, event);
            law_delivered_pieces_match(before, peer, event);
            if let WorkerEventView::Taken(Some(work)) = event {
                assert(now.waiting[0] == work);
                assert(works.contains(work));
            }
            assert(worker_sound(works, worker));
        },
        CourseEvent::Break(i) => {
            assert(worker_sound(works, now.workers[i]));
        },
        CourseEvent::Collect => {
            assert(download_sound(works, now.sent[0]));
            match now.sent.first() {
                DownloadView::Result(index, buf) => {
                    lemma_collect_sound(works, now, index, buf);
                },
                DownloadView::Work(work) => {},
            }
        },
    }
}

/// A piece that the collector writes stands in its place, and the pieces that
/// stood in theirs still do.
proof fn lemma_collect_sound(works: Seq<PieceWork>, now: Course, index: usize, buf: Seq<u8>)
    requires
        sound(works, now),
        now.allows(CourseEvent::Collect),
        now.sent.first() == DownloadView::Result(index, buf),
        now.after(CourseEvent::Collect).indices().subset_of(work_indices(works).to_multiset()),
    ensures
        sound(works, now.after(CourseEvent::Collect)),
{
    broadcast use vstd::seq_lib::group_to_multiset_ensures;

    let after = now.after(CourseEvent::Collect);
    let piece_len = now.piece_len;
    assert(download_sound(works, now.sent[0]));
    let work = choose|work: PieceWork| #[trigger]
        works.contains(work) && work.index == index && is_content(work, buf);
    let j = choose|j: int| 0 <= j < works.len() && works[j] == work;
    assert(works[j].len <= piece_len);
    lemma_offset(piece_len, index);
    let at = index * piece_len;
    assert(after.output == written(now.output, at, buf));
    assert(stands_in(after.output, piece_len, index, buf)) by {
        if buf.len() > 0 {
            assert(after.output.subrange(at, at + buf.len()) =~= buf);
        }
    }
    lemma_once(works, piece_len, index);
    lemma_sent_first(now.sent);
    assert(now.indices().count(index) <= 1);
    assert forall|i: int| 0 <= i < after.collected.len() implies {
        &&& genuine(works, (#[trigger] after.collected[i]).0, after.collected[i].1)
        &&& stands_in(after.output, piece_len, after.collected[i].0, after.collected[i].1)
    } by {
        if i < now.collected.len() {
            let (other, kept) = now.collected[i];
            assert(after.collected[i] == now.collected[i]);
            let found = collected_indices(now.collected);
            assert(found[i] == other);
            assert(found.contains(other));
            assert(found.to_multiset().count(other) >= 1);
            assert(other != index);
            let held = choose|held: PieceWork| #[trigger]
                works.contains(held) && held.index == other && is_content(held, kept);
            let k = choose|k: int| 0 <= k < works.len() && works[k] == held;
            assert(works[k].len <= piece_len);
            lemma_write_keeps(now.output, piece_len, index, buf, other, kept);
        }
    }
    assert forall|i: int| 0 <= i < after.sent.len() implies download_sound(
        works,
        #[trigger] after.sent[i],
    ) by {
        assert(after.sent[i] == now.sent[i + 1]);
    }
}

proof fn lemma_course_sound(
    works: Seq<PieceWork>,
    limit: nat,
    piece_len: i64,
    output: Seq<u8>,
    events: Seq<CourseEvent>,
)
    requires
        have_places(works, piece_len),
        works.len() <= limit <= usize::MAX,
        possible(Course::start(works, limit, piece_len, output), events),
    ensures
        ({
            let now = course(Course::start(works, limit, piece_len, output), events);
            &&& sound(works, now)
            &&& now.piece_len == piece_len
            &&& now.limit == limit
        }),
    decreases events.len(),
{
    let start = Course::start(works, limit, piece_len, output);
    if events.len() == 0 {
        lemma_start_sound(works, limit, piece_len, output);
    } else {
        lemma_course_sound(works, limit, piece_len, output, events.drop_last());
        lemma_step_sound(works, course(start, events.drop_last()), events.last());
    }
}

proof fn lemma_subset_len(a: Multiset<usize>, b: Multiset<usize>)
    requires
        a.subset_of(b),
    ensures
        a.len() <= b.len(),
        a.len() == b.len() ==> a == b,
{
    broadcast use vstd::multiset::group_multiset_axioms;
    broadcast use vstd::multiset::group_multiset_properties;

    let rest = b.sub(a);
    assert(a.add(rest) =~= b);
    if rest.len() == 0 {
        assert(rest =~= Multiset::empty());
        assert(a =~= b);
    }
}

/// Pieces are where they are and nowhere else, so they are no more than there
/// were at first.
proof fn lemma_counts(works: Seq<PieceWork>, now: Course)
    requires
        sound(works, now),
    ensures
        now.waiting.len() + now.sent.len() + now.collected.len() <= works.len(),
{
    broadcast use vstd::seq_lib::group_to_multiset_ensures;
    broadcast use vstd::multiset::group_multiset_axioms;

    lemma_subset_len(now.indices(), work_indices(works).to_multiset());
    assert(work_indices(works).to_multiset().len() == works.len());
    assert(work_indices(now.waiting).to_multiset().len() == now.waiting.len());
    assert(sent_indices(now.sent).to_multiset().len() == now.sent.len());
    assert(collected_indices(now.collected).to_multiset().len() == now.collected.len());
}

/// Whatever workers hand over, the collector can deal with it: a piece has its
/// place, and the queue has room for one that comes back.
pub proof fn law_collector_can_take(
    works: Seq<PieceWork>,
    limit: nat,
    piece_len: i64,
    output: Seq<u8>,
    events: Seq<CourseEvent>,
)
    requires
        have_places(works, piece_len),
        works.len() <= limit <= usize::MAX,
        possible(Course::start(works, limit, piece_len, output), events),
    ensures
        ({
            let now = course(Course::start(works, limit, piece_len, output), events);
            now.sent.len() > 0 ==> can_collect(
                piece_len,
                now.collected.len(),
                now.waiting,
                limit,
                now.sent.first(),
            )
        }),
{
    let now = course(Course::start(works, limit, piece_len, output), events);
    lemma_course_sound(works, limit, piece_len, output, events);
    lemma_counts(works, now);
    if now.sent.len() > 0 {
        assert(download_sound(works, now.sent[0]));
        if let DownloadView::Result(index, buf) = now.sent.first() {
            let work = choose|work: PieceWork| #[trigger]
                works.contains(work) && work.index == index && is_content(work, buf);
            let j = choose|j: int| 0 <= j < works.len() && works[j] == work;
            assert(works[j].index * piece_len <= i64::MAX);
            lemma_offset(piece_len, index);
        }
    }
}

/// A finished download is whole, whatever the peers have sent: once the
/// collector has gathered what it takes for the last piece, every piece that
/// was in the queue stands in its place in the file, with its length and with
/// the digest that it was to have. It finishes only if the queue held as many
/// pieces at first as it was made for.
pub proof fn law_finished_download_is_whole(
    works: Seq<PieceWork>,
    limit: nat,
    piece_len: i64,
    output: Seq<u8>,
    events: Seq<CourseEvent>,
)
    requires
        have_places(works, piece_len),
        works.len() <= limit <= usize::MAX,
        possible(Course::start(works, limit, piece_len, output), events),
    ensures
        ({
            let now = course(Course::start(works, limit, piece_len, output), events);
            now.done ==> {
                &&& works.len() == limit
                &&& forall|work: PieceWork| #[trigger]
                    works.contains(work) ==> in_place(now.output, piece_len, work)
            }
        }),
{
    broadcast use vstd::seq_lib::group_to_multiset_ensures;

    let now = course(Course::start(works, limit, piece_len, output), events);
    lemma_course_sound(works, limit, piece_len, output, events);
    if now.done {
        let all = work_indices(works);
        let found = collected_indices(now.collected);
        lemma_counts(works, now);
        assert(found.to_multiset().subset_of(all.to_multiset())) by {
            assert forall|x: usize| #[trigger] found.to_multiset().count(x)
                <= all.to_multiset().count(x) by {
                assert(now.indices().count(x) <= all.to_multiset().count(x));
            }
        }
        lemma_subset_len(found.to_multiset(), all.to_multiset());
        assert forall|work: PieceWork| #[trigger] works.contains(work) implies in_place(
            now.output,
            piece_len,
            work,
        ) by {
            let j = choose|j: int| 0 <= j < works.len() && works[j] == work;
            assert(all[j] == work.index);
            assert(all.contains(work.index));
            assert(found.to_multiset().count(work.index) > 0);
            assert(found.contains(work.index));
            let i = choose|i: int| 0 <= i < found.len() && found[i] == work.index;
            let (index, buf) = now.collected[i];
            assert(index == work.index);
            assert(genuine(works, now.collected[i].0, now.collected[i].1));
            let same = choose|same: PieceWork| #[trigger]
                works.contains(same) && same.index == index && is_content(same, buf);
            let k = choose|k: int| 0 <= k < works.len() && works[k] == same;
            if j != k {
                assert(works[j].index != works[k].index);
            }
            assert(same == work);
            if buf.len() == 0 {
                assert(buf =~= seq![]);
            }
        }
    }
}

proof fn lemma_output_within(
    works: Seq<PieceWork>,
    limit: nat,
    piece_len: i64,
    output: Seq<u8>,
    events: Seq<CourseEvent>,
    bound: nat,
)
    requires
        have_places(works, piece_len),
        works.len() <= limit <= usize::MAX,
        possible(Course::start(works, limit, piece_len, output), events),
        output.len() <= bound,
        forall|i: int|
            0 <= i < works.len() ==> (#[trigger] works[i]).index * piece_len + works[i].len
                <= bound,
    ensures
        course(Course::start(works, limit, piece_len, output), events).output.len() <= bound,
    decreases events.len(),
{
    let start = Course::start(works, limit, piece_len, output);
    if events.len() > 0 {
        let before = course(start, events.drop_last());
        lemma_output_within(works, limit, piece_len, output, events.drop_last(), bound);
        lemma_course_sound(works, limit, piece_len, output, events.drop_last());
        if events.last() is Collect {
            assert(download_sound(works, before.sent[0]));
            if let DownloadView::Result(index, buf) = before.sent.first() {
                let work = choose|work: PieceWork| #[trigger]
                    works.contains(work) && work.index == index && is_content(work, buf);
                let j = choose|j: int| 0 <= j < works.len() && works[j] == work;
                assert(works[j].index * piece_len + works[j].len <= bound);
                lemma_offset(piece_len, index);
            }
        }
    }
}

/// Whether a place in the file belongs to none of some pieces.
pub open spec fn outside(works: Seq<PieceWork>, piece_len: i64, at: int) -> bool {
    forall|i: int|
        0 <= i < works.len() ==> !((#[trigger] works[i]).index * piece_len <= at
            < works[i].index * piece_len + works[i].len)
}

/// A download leaves the file as it was outside the places of the pieces that
/// were in the queue at first: nothing is cut off, a byte that was there is
/// there still, and one that has come to be there is zero.
pub proof fn law_other_bytes_are_kept(
    works: Seq<PieceWork>,
    limit: nat,
    piece_len: i64,
    output: Seq<u8>,
    events: Seq<CourseEvent>,
    at: int,
)
    requires
        have_places(works, piece_len),
        works.len() <= limit <= usize::MAX,
        possible(Course::start(works, limit, piece_len, output), events),
        outside(works, piece_len, at),
    ensures
        ({
            let file = course(Course::start(works, limit, piece_len, output), events).output;
            &&& output.len() <= file.len()
            &&& 0 <= at < output.len() ==> file[at] == output[at]
            &&& output.len() <= at < file.len() ==> file[at] == 0
        }),
    decreases events.len(),
{
    let start = Course::start(works, limit, piece_len, output);
    if events.len() > 0 {
        let before = course(start, events.drop_last());
        law_other_bytes_are_kept(works, limit, piece_len, output, events.drop_last(), at);
        lemma_course_sound(works, limit, piece_len, output, events.drop_last());
        if events.last() is Collect {
            assert(download_sound(works, before.sent[0]));
            if let DownloadView::Result(index, buf) = before.sent.first() {
                let work = choose|work: PieceWork| #[trigger]
                    works.contains(work) && work.index == index && is_content(work, buf);
                let j = choose|j: int| 0 <= j < works.len() && works[j] == work;
                assert(works[j].index * piece_len <= i64::MAX);
                lemma_offset(piece_len, index);
            }
        }
    }
}

/// Whether a description is consistent: its length is that of as many pieces as
/// it holds digests of, each can be counted in 32 bits, and all have places
/// that fit in 63 bits.
pub open spec fn consistent(info: InfoView) -> bool {
    &&& info.piece_len > 0
    &&& info.length matches Some(length) && length >= 0 && {
        &&& info.pieces.len() == 20 * chunk_count(length as nat, info.piece_len as nat)
        &&& info.piece_len <= u32::MAX || length <= u32::MAX
    }
    &&& info.piece_count() * info.piece_len <= i64::MAX
}

/// The tasks of a consistent torrent have places of their own.
proof fn lemma_tasks(info: InfoView, works: Seq<PieceWork>)
    requires
        consistent(info),
        info.piece_count() <= usize::MAX,
        works.map_values(|w: PieceWork| w@) == info.works(None, info.piece_count()),
    ensures
        works.len() == info.piece_count(),
        have_places(works, info.piece_len),
        forall|i: int|
            0 <= i < works.len() ==> {
                &&& (#[trigger] works[i])@ == info.work(i as nat)
                &&& works[i].index == i
                &&& works[i].len == chunk_start(
                    info.length->0 as nat,
                    info.piece_len as nat,
                    i as nat + 1,
                ) - chunk_start(info.length->0 as nat, info.piece_len as nat, i as nat)
                &&& works[i].index * info.piece_len == chunk_start(
                    info.length->0 as nat,
                    info.piece_len as nat,
                    i as nat,
                )
                &&& works[i].len > 0
            },
{
    let count = info.piece_count();
    let len = info.length->0 as nat;
    let size = info.piece_len as nat;
    let views = works.map_values(|w: PieceWork| w@);
    law_no_file_misses_all(info, count);
    assert(views.len() == count);
    assert forall|i: int| 0 <= i < works.len() implies {
        &&& (#[trigger] works[i])@ == info.work(i as nat)
        &&& works[i].index == i
        &&& works[i].len == chunk_start(len, size, i as nat + 1) - chunk_start(len, size, i as nat)
        &&& works[i].index * info.piece_len == chunk_start(len, size, i as nat)
        &&& works[i].len > 0
        &&& works[i].len <= size
        &&& works[i].index * info.piece_len <= i64::MAX
    } by {
        assert(views[i] == works[i]@);
        lemma_chunk_count(len, size, i as nat);
        lemma_chunk_step(len, size, i as nat);
        assert(0 <= i * size && i * size + size <= count * size) by (nonlinear_arith)
            requires
                0 <= i,
                i + 1 <= count,
                size > 0,
        ;
    }
    assert forall|i: int| 0 <= i < works.len() implies {
        &&& (#[trigger] works[i]).len <= info.piece_len
        &&& works[i].index * info.piece_len <= i64::MAX
    } by {
        assert(works[i]@ == info.work(i as nat));
    }
}

/// Once a download of all the pieces of a torrent has finished, the file is one
/// that the torrent describes: it has the length, and every piece of it the
/// digest, whatever the peers have sent. The queue is the one that is filled
/// when no file is there yet, and what was in the output is no longer than the
/// file.
pub proof fn law_finished_file_is_described(
    info: InfoView,
    works: Seq<PieceWork>,
    output: Seq<u8>,
    events: Seq<CourseEvent>,
)
    requires
        consistent(info),
        info.piece_count() <= usize::MAX,
        works.map_values(|w: PieceWork| w@) == info.works(None, info.piece_count()),
        output.len() <= info.length->0,
        possible(Course::start(works, info.piece_count(), info.piece_len, output), events),
    ensures
        ({
            let start = Course::start(works, info.piece_count(), info.piece_len, output);
            course(start, events).done ==> describes_file(info, course(start, events).output)
        }),
{
    let count = info.piece_count();
    let len = info.length->0 as nat;
    let size = info.piece_len as nat;
    let start = Course::start(works, count, info.piece_len, output);
    let file = course(start, events).output;
    lemma_tasks(info, works);
    law_finished_download_is_whole(works, count, info.piece_len, output, events);
    assert forall|i: int| 0 <= i < works.len() implies (#[trigger] works[i]).index
        * info.piece_len + works[i].len <= len by {
        lemma_chunk_step(len, size, i as nat);
    }
    lemma_output_within(works, count, info.piece_len, output, events, len);
    if course(start, events).done {
        if count > 0 {
            let last = works[count - 1];
            assert(works.contains(last));
            lemma_chunk_count(len, size, count);
            assert(in_place(file, info.piece_len, last));
        } else {
            lemma_chunk_count(len, size, 0);
        }
        assert(file.len() == len);
        assert forall|i: nat| i < chunk_count(file.len(), size) implies #[trigger] sha1_digest(
            chunk(file, size, i),
        ) == info.piece_hash(i) by {
            assert(works.contains(works[i as int]));
            assert(in_place(file, info.piece_len, works[i as int]));
        }
    }
}

/// Whether no other contents of the same length share a digest with a piece of
/// a file.
pub open spec fn digests_tell_apart(file: Seq<u8>, size: nat) -> bool {
    forall|i: nat, buf: Seq<u8>|
        i < chunk_count(file.len(), size) && buf.len() == chunk(file, size, i).len()
            && #[trigger] sha1_digest(buf) == #[trigger] sha1_digest(chunk(file, size, i))
            ==> buf == chunk(file, size, i)
}

/// Once a download of all the pieces of a torrent has finished, the file is the
/// one that the torrent describes, whatever the peers have sent, as long as no
/// other contents share a digest with one of its pieces.
pub proof fn law_finished_file_is_the_file(
    info: InfoView,
    file: Seq<u8>,
    works: Seq<PieceWork>,
    output: Seq<u8>,
    events: Seq<CourseEvent>,
)
    requires
        describes_file(info, file),
        digests_tell_apart(file, info.piece_len as nat),
        info.piece_count() * info.piece_len <= i64::MAX,
        info.piece_len <= u32::MAX || file.len() <= u32::MAX,
        info.piece_count() <= usize::MAX,
        works.map_values(|w: PieceWork| w@) == info.works(None, info.piece_count()),
        output.len() <= file.len(),
        possible(Course::start(works, info.piece_count(), info.piece_len, output), events),
    ensures
        ({
            let start = Course::start(works, info.piece_count(), info.piece_len, output);
            course(start, events).done ==> course(start, events).output == file
        }),
{
    let start = Course::start(works, info.piece_count(), info.piece_len, output);
    let result = course(start, events).output;
    let size = info.piece_len as nat;
    law_pieces_are_chunks(info, file);
    law_finished_file_is_described(info, works, output, events);
    if course(start, events).done {
        lemma_tasks(info, works);
        assert forall|i: int| 0 <= i < works.len() implies (#[trigger] works[i]).index
            * info.piece_len + works[i].len <= file.len() by {
            lemma_chunk_step(file.len(), size, i as nat);
        }
        lemma_output_within(
            works,
            info.piece_count(),
            info.piece_len,
            output,
            events,
            file.len(),
        );
        assert(result.len() == file.len());
        assert forall|at: int| 0 <= at < file.len() implies result[at] == file[at] by {
            let i = at as nat / size;
            lemma_chunk_of(file.len(), size, at as nat);
            lemma_chunk_count(file.len(), size, i);
            let got = chunk(result, size, i);
            assert(sha1_digest(got) == sha1_digest(chunk(file, size, i)));
            assert(got == chunk(file, size, i));
            let from = chunk_start(file.len(), size, i) as int;
            assert(got[at - from] == result[at]);
            assert(chunk(file, size, i)[at - from] == file[at]);
        }
        assert(result =~= file);
    }
}

/// Every request that is sent in a download is for part of a piece that was in
/// the queue at first.
pub proof fn law_requests_are_for_queued_pieces(
    works: Seq<PieceWork>,
    limit: nat,
    piece_len: i64,
    output: Seq<u8>,
    events: Seq<CourseEvent>,
    i: int,
    peer: PeerView,
    event: WorkerEventView,
)
    requires
        have_places(works, piece_len),
        works.len() <= limit <= usize::MAX,
        possible(Course::start(works, limit, piece_len, output), events),
        course(Course::start(works, limit, piece_len, output), events).allows(
            CourseEvent::Step(i, peer, event),
        ),
    ensures
        ({
            let now = course(Course::start(works, limit, piece_len, output), events);
            now.workers[i].step(peer, event).1 matches WorkerActionView::Send(message)
                ==> message.id == opcode::REQUEST ==> exists|work: PieceWork| #[trigger]
                works.contains(work) && asks_for(message, work)
        }),
{
    let now = course(Course::start(works, limit, piece_len, output), events);
    lemma_course_sound(works, limit, piece_len, output, events);
    let before = now.workers[i];
    assert(worker_sound(works, before));
    law_request_is_for_held_piece(before, peer, event);
    if let WorkerEventView::Taken(Some(work)) = event {
        assert(now.waiting[0] == work);
        assert(works.contains(work));
    }
}

} // verus!
