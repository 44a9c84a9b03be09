//! Downloading pieces from one peer, as long as any wait.
use vstd::prelude::*;

use crate::bits::{bit_at, bit_count};
use crate::blocks::law_requests_in_order;
use crate::bytes::{be32, push_be32, same_bytes};
use crate::digest::{sha1, sha1_digest};
use crate::download::{
    request_message, DownloadStep, PieceDownload, PieceDownloadView, PieceError, MAX_PIECE,
};
use crate::message::{Message, MessageView};
use crate::opcode;
use crate::peer::{PeerState, PeerView};
use crate::work::{PieceResult, PieceWork};

verus! {

/// Where a worker stands.
#[derive(Debug)]
pub enum Worker {
    /// It has done nothing yet.
    Fresh,
    /// It awaits the peer's bit field.
    AwaitingBitfield,
    /// It tells the peer that it accepts requests.
    Unchoking,
    /// It tells the peer that it wants pieces.
    Interested,
    /// It takes the next piece to download.
    Choosing,
    /// It downloads a piece.
    Fetching(PieceWork, PieceDownload),
    /// It tells the peer that it has a piece.
    Announcing(PieceResult),
    /// It hands a piece over, downloaded or not.
    Handing,
    /// It hands a piece back after an error.
    Failing(PieceError),
    /// It hands a piece back whose contents were wrong.
    Rejecting,
    /// It does nothing more.
    Ended,
}

/// What has come of a worker's last action.
#[derive(Debug)]
pub enum WorkerEvent {
    /// It has been performed.
    Ready,
    /// A message came in.
    Heard(Message),
    /// A piece was taken from the queue, or none was there.
    Taken(Option<PieceWork>),
}

/// What a worker does next.
#[derive(Debug)]
pub enum WorkerAction {
    /// It sends a message.
    Send(Message),
    /// It waits for the peer's bit field.
    AwaitBitfield,
    /// It waits for a message that bears on the download.
    Listen,
    /// It takes a piece from the queue.
    Take,
    /// It hands back a piece that was not downloaded.
    HandBack(PieceWork),
    /// It delivers a piece.
    Deliver(PieceResult),
    /// It ends, for no piece waits.
    Finish,
    /// It ends with an error.
    Fail(PieceError),
    /// It ends because a piece's contents did not match its hash.
    Reject,
}

/// A worker with its contents as sequences.
#[verifier::ext_equal]
pub enum WorkerView {
    Fresh,
    AwaitingBitfield,
    Unchoking,
    Interested,
    Choosing,
    Fetching(PieceWork, PieceDownloadView),
    Announcing(usize, Seq<u8>),
    Handing,
    Failing(PieceError),
    Rejecting,
    Ended,
}

/// An event with its contents as sequences.
#[verifier::ext_equal]
pub enum WorkerEventView {
    Ready,
    Heard(MessageView),
    Taken(Option<PieceWork>),
}

/// An action with its contents as sequences.
#[verifier::ext_equal]
pub enum WorkerActionView {
    Send(MessageView),
    AwaitBitfield,
    Listen,
    Take,
    HandBack(PieceWork),
    Deliver(usize, Seq<u8>),
    Finish,
    Fail(PieceError),
    Reject,
}

impl View for Worker {
    type V = WorkerView;

    open spec fn view(&self) -> WorkerView {
        match *self {
            Worker::Fresh => WorkerView::Fresh,
            Worker::AwaitingBitfield => WorkerView::AwaitingBitfield,
            Worker::Unchoking => WorkerView::Unchoking,
            Worker::Interested => WorkerView::Interested,
            Worker::Choosing => WorkerView::Choosing,
            Worker::Fetching(work, download) => WorkerView::Fetching(work, download@),
            Worker::Announcing(result) => WorkerView::Announcing(result.index, result.buf@),
            Worker::Handing => WorkerView::Handing,
            Worker::Failing(error) => WorkerView::Failing(error),
            Worker::Rejecting => WorkerView::Rejecting,
            Worker::Ended => WorkerView::Ended,
        }
    }
}

impl View for WorkerEvent {
    type V = WorkerEventView;

    open spec fn view(&self) -> WorkerEventView {
        match *self {
            WorkerEvent::Ready => WorkerEventView::Ready,
            WorkerEvent::Heard(message) => WorkerEventView::Heard(message@),
            WorkerEvent::Taken(work) => WorkerEventView::Taken(work),
        }
    }
}

impl View for WorkerAction {
    type V = WorkerActionView;

    open spec fn view(&self) -> WorkerActionView {
        match *self {
            WorkerAction::Send(message) => WorkerActionView::Send(message@),
            WorkerAction::AwaitBitfield => WorkerActionView::AwaitBitfield,
            WorkerAction::Listen => WorkerActionView::Listen,
            WorkerAction::Take => WorkerActionView::Take,
            WorkerAction::HandBack(work) => WorkerActionView::HandBack(work),
            WorkerAction::Deliver(result) => WorkerActionView::Deliver(result.index, result.buf@),
            WorkerAction::Finish => WorkerActionView::Finish,
            WorkerAction::Fail(error) => WorkerActionView::Fail(error),
            WorkerAction::Reject => WorkerActionView::Reject,
        }
    }
}

/// A message of kind `id` without a payload.
pub open spec fn bare(id: u8) -> MessageView {
    MessageView { id, payload: seq![] }
}

/// The message that tells a peer of a piece.
pub open spec fn have_message(index: usize) -> MessageView {
    MessageView { id: opcode::HAVE, payload: be32(index as u32) }
}

/// How a download goes on: by a request if one is due, by listening if not,
/// and once all has come in, by announcing the piece, or by handing it back if
/// its contents do not match its hash.
pub open spec fn fetching(work: PieceWork, download: PieceDownloadView, choked: bool) -> (
    WorkerView,
    WorkerActionView,
) {
    if download.done() {
        if sha1_digest(download.buf) == work.hash@ {
            (
                WorkerView::Announcing(work.index, download.buf),
                WorkerActionView::Send(have_message(work.index)),
            )
        } else {
            (WorkerView::Rejecting, WorkerActionView::HandBack(work))
        }
    } else if download.wants_request(choked) {
        (
            WorkerView::Fetching(work, download.after_request()),
            WorkerActionView::Send(download.next_request()),
        )
    } else {
        (WorkerView::Fetching(work, download), WorkerActionView::Listen)
    }
}

impl WorkerView {
    /// What is asked for lies in the piece that is downloaded.
    pub open spec fn wf(self) -> bool {
        self matches WorkerView::Fetching(work, download) ==> {
            &&& download.wf()
            &&& download.index == work.index
            &&& download.buf.len() == work.len
        }
    }

    /// Whether an event can follow the worker's last action. A piece that was
    /// taken has a place in the peer's bit field, and if the peer has it, it
    /// is not too long; a message bears on the download as it should.
    pub open spec fn expects(self, peer: PeerView, event: WorkerEventView) -> bool {
        match (self, event) {
            (WorkerView::AwaitingBitfield, WorkerEventView::Heard(_)) => true,
            (WorkerView::Choosing, WorkerEventView::Taken(None)) => true,
            (WorkerView::Choosing, WorkerEventView::Taken(Some(work))) => {
                &&& work.index < peer.bits.len()
                &&& peer.bits[work.index as int] ==> work.len <= MAX_PIECE
            },
            (WorkerView::Fetching(_, download), WorkerEventView::Heard(message)) => {
                download.can_take(message)
            },
            (WorkerView::AwaitingBitfield, _) => false,
            (WorkerView::Choosing, _) => false,
            (WorkerView::Ended, _) => false,
            (_, WorkerEventView::Ready) => true,
            _ => false,
        }
    }

    /// Where the worker stands after an event, and what it does next.
    pub open spec fn step(self, peer: PeerView, event: WorkerEventView) -> (
        WorkerView,
        WorkerActionView,
    ) {
        match (self, event) {
            (WorkerView::Fresh, _) => if peer.bits.len() == 0 {
                (WorkerView::AwaitingBitfield, WorkerActionView::AwaitBitfield)
            } else {
                (WorkerView::Unchoking, WorkerActionView::Send(bare(opcode::UNCHOKE)))
            },
            (WorkerView::AwaitingBitfield, _) => (
                WorkerView::Unchoking,
                WorkerActionView::Send(bare(opcode::UNCHOKE)),
            ),
            (WorkerView::Unchoking, _) => (
                WorkerView::Interested,
                WorkerActionView::Send(bare(opcode::INTEREST)),
            ),
            (WorkerView::Choosing, WorkerEventView::Taken(Some(work))) => if peer.bits[work.index as int] {
                fetching(work, PieceDownloadView::start(work.index, work.len), peer.choked)
            } else {
                (WorkerView::Handing, WorkerActionView::HandBack(work))
            },
            (WorkerView::Choosing, _) => (WorkerView::Ended, WorkerActionView::Finish),
            (
                WorkerView::Fetching(work, download),
                WorkerEventView::Heard(message),
            ) => if message.id != opcode::PIECE {
                fetching(work, download, peer.choked)
            } else {
                match download.refusal(message.payload) {
                    Some(error) => (
                        WorkerView::Failing(error),
                        WorkerActionView::HandBack(work),
                    ),
                    None => fetching(work, download.after_block(message.payload), peer.choked),
                }
            },
            (WorkerView::Fetching(work, download), _) => fetching(work, download, peer.choked),
            (WorkerView::Announcing(index, buf), _) => (
                WorkerView::Handing,
                WorkerActionView::Deliver(index, buf),
            ),
            (WorkerView::Failing(error), _) => (WorkerView::Ended, WorkerActionView::Fail(error)),
            (WorkerView::Rejecting, _) => (WorkerView::Ended, WorkerActionView::Reject),
            (_, _) => (WorkerView::Choosing, WorkerActionView::Take),
        }
    }

    /// The piece that goes back when the connection breaks: the one that is being
    /// downloaded. One that is being announced does not go back.
    pub open spec fn interrupted(self) -> Option<PieceWork> {
        match self {
            WorkerView::Fetching(work, _) => Some(work),
            _ => None,
        }
    }

    /// The piece that the worker holds, downloaded or not.
    pub open spec fn held(self) -> Seq<usize> {
        match self {
            WorkerView::Fetching(work, _) => seq![work.index],
            WorkerView::Announcing(index, _) => seq![index],
            _ => seq![],
        }
    }
}

impl WorkerEventView {
    /// The piece that comes to the worker by an event.
    pub open spec fn given(self) -> Seq<usize> {
        match self {
            WorkerEventView::Taken(Some(work)) => seq![work.index],
            _ => seq![],
        }
    }
}

impl WorkerActionView {
    /// The piece that the worker gives away by an action.
    pub open spec fn handed(self) -> Seq<usize> {
        match self {
            WorkerActionView::HandBack(work) => seq![work.index],
            WorkerActionView::Deliver(index, _) => seq![index],
            _ => seq![],
        }
    }
}

/// A worker neither loses nor invents pieces: what it had and was given, it
/// has still or gives away.
pub proof fn law_pieces_are_kept(worker: WorkerView, peer: PeerView, event: WorkerEventView)
    requires
        worker.wf(),
        worker.expects(peer, event),
    ensures
        worker.held() + event.given() == worker.step(peer, event).0.held() + worker.step(
            peer,
            event,
        ).1.handed(),
{
    let after = worker.step(peer, event);
    assert(worker.held() + event.given() =~= after.0.held() + after.1.handed());
}

/// A worker hands back a piece exactly as it got it.
pub proof fn law_handed_back_unchanged(worker: WorkerView, peer: PeerView, event: WorkerEventView)
    requires
        worker.wf(),
        worker.expects(peer, event),
    ensures
        worker.step(peer, event).1 matches WorkerActionView::HandBack(work) ==> {
            ||| event == WorkerEventView::Taken(Some(work))
            ||| worker matches WorkerView::Fetching(held, _) && held == work
        },
{
}

/// A worker announces only pieces whose contents match their hash, and
/// delivers only what it has announced.
pub proof fn law_delivered_pieces_match(
    worker: WorkerView,
    peer: PeerView,
    event: WorkerEventView,
)
    requires
        worker.wf(),
        worker.expects(peer, event),
    ensures
        worker.step(peer, event).0 matches WorkerView::Announcing(index, buf) ==> {
            exists|work: PieceWork| #[trigger]
                sha1_digest(buf) == work.hash@ && work.index == index && buf.len() == work.len
                    && (event == WorkerEventView::Taken(Some(work)) || (worker matches
                    WorkerView::Fetching(held, _) && held == work))
        },
        worker.step(peer, event).1 matches WorkerActionView::Deliver(index, buf) ==> worker
            == WorkerView::Announcing(index, buf),
{
}

/// A worker that takes a piece which the peer lacks hands it back.
pub proof fn law_lacking_piece_goes_back(peer: PeerView, work: PieceWork)
    requires
        work.index < peer.bits.len(),
        !peer.bits[work.index as int],
    ensures
        WorkerView::Choosing.expects(peer, WorkerEventView::Taken(Some(work))),
        WorkerView::Choosing.step(peer, WorkerEventView::Taken(Some(work))) == (
            WorkerView::Handing,
            WorkerActionView::HandBack(work),
        ),
{
}

proof fn lemma_fetching_wf(work: PieceWork, download: PieceDownloadView, choked: bool)
    requires
        WorkerView::Fetching(work, download).wf(),
    ensures
        fetching(work, download, choked).0.wf(),
{
    if download.wants_request(choked) {
        law_requests_in_order(download);
    }
}

/// A worker stays well-formed.
pub proof fn law_worker_stays_wf(worker: WorkerView, peer: PeerView, event: WorkerEventView)
    requires
        worker.wf(),
        worker.expects(peer, event),
    ensures
        worker.step(peer, event).0.wf(),
{
    match (worker, event) {
        (WorkerView::Choosing, WorkerEventView::Taken(Some(work))) => {
            if peer.bits[work.index as int] {
                lemma_fetching_wf(
                    work,
                    PieceDownloadView::start(work.index, work.len),
                    peer.choked,
                );
            }
        },
        (WorkerView::Fetching(work, download), WorkerEventView::Heard(message)) => {
            if message.id != opcode::PIECE {
                lemma_fetching_wf(work, download, peer.choked);
            } else if download.refusal(message.payload) is None {
                lemma_fetching_wf(work, download.after_block(message.payload), peer.choked);
            }
        },
        (WorkerView::Fetching(work, download), _) => {
            lemma_fetching_wf(work, download, peer.choked);
        },
        _ => {},
    }
}

/// What has happened to a worker: each event, with the peer's state then.
pub type WorkerHistory = Seq<(PeerView, WorkerEventView)>;

/// Where a worker stands after all that has happened to it.
pub open spec fn worker_after(history: WorkerHistory) -> WorkerView
    decreases history.len(),
{
    if history.len() == 0 {
        WorkerView::Fresh
    } else {
        let (peer, event) = history.last();
        worker_after(history.drop_last()).step(peer, event).0
    }
}

/// What a worker does after all that has happened to it.
pub open spec fn last_action(history: WorkerHistory) -> WorkerActionView {
    let (peer, event) = history.last();
    worker_after(history.drop_last()).step(peer, event).1
}

/// Whether each event was one that the worker expected.
pub open spec fn expected(history: WorkerHistory) -> bool
    decreases history.len(),
{
    history.len() > 0 ==> {
        let (peer, event) = history.last();
        &&& expected(history.drop_last())
        &&& worker_after(history.drop_last()).expects(peer, event)
    }
}

/// The messages that a worker has sent, in their order.
pub open spec fn messages_sent(history: WorkerHistory) -> Seq<MessageView>
    decreases history.len(),
{
    if history.len() == 0 {
        seq![]
    } else {
        match last_action(history) {
            WorkerActionView::Send(message) => messages_sent(history.drop_last()).push(message),
            _ => messages_sent(history.drop_last()),
        }
    }
}

/// The piece that a worker took last, with the peer's state then.
pub open spec fn last_taken(history: WorkerHistory) -> Option<(PieceWork, PeerView)>
    decreases history.len(),
{
    if history.len() == 0 {
        None
    } else {
        match history.last() {
            (peer, WorkerEventView::Taken(Some(work))) => Some((work, peer)),
            (_, WorkerEventView::Taken(None)) => None,
            _ => last_taken(history.drop_last()),
        }
    }
}

/// Whether messages begin with those by which a worker introduces itself.
pub open spec fn introduced(messages: Seq<MessageView>) -> bool {
    &&& messages.len() >= 2
    &&& messages[0] == bare(opcode::UNCHOKE)
    &&& messages[1] == bare(opcode::INTEREST)
}

/// What holds at any time of a worker's messages and of the piece that it
/// downloads.
spec fn on_course(history: WorkerHistory) -> bool {
    let messages = messages_sent(history);
    &&& worker_after(history).wf()
    &&& match worker_after(history) {
        WorkerView::Fresh => messages.len() == 0,
        WorkerView::AwaitingBitfield => messages.len() == 0,
        WorkerView::Unchoking => messages =~= seq![bare(opcode::UNCHOKE)],
        WorkerView::Fetching(work, _) => {
            &&& introduced(messages)
            &&& last_taken(history) matches Some((taken, peer))
            &&& taken == work
            &&& work.index < peer.bits.len()
            &&& peer.bits[work.index as int]
        },
        _ => introduced(messages),
    }
}

proof fn lemma_on_course(history: WorkerHistory)
    requires
        expected(history),
    ensures
        on_course(history),
    decreases history.len(),
{
    if history.len() > 0 {
        let before = history.drop_last();
        let (peer, event) = history.last();
        lemma_on_course(before);
        law_worker_stays_wf(worker_after(before), peer, event);
    }
}

/// Whether a message asks for part of a piece.
pub open spec fn asks_for(message: MessageView, work: PieceWork) -> bool {
    exists|begin: u32, len: u32|
        begin + len <= work.len && message == #[trigger] request_message(
            work.index as u32,
            begin,
            len,
        )
}

/// A request that a worker sends is for part of the piece that it downloads then,
/// which it held before or has just taken.
pub proof fn law_request_is_for_held_piece(
    worker: WorkerView,
    peer: PeerView,
    event: WorkerEventView,
)
    requires
        worker.wf(),
        worker.expects(peer, event),
    ensures
        worker.step(peer, event).1 matches WorkerActionView::Send(message) ==> message.id
            == opcode::REQUEST ==> {
            &&& worker.step(peer, event).0 matches WorkerView::Fetching(work, _)
            &&& asks_for(message, work)
            &&& event == WorkerEventView::Taken(Some(work)) || (worker matches
                WorkerView::Fetching(held, _) && held == work)
        },
{
    let (after, action) = worker.step(peer, event);
    if let WorkerActionView::Send(message) = action {
        if message.id == opcode::REQUEST {
            let download = match (worker, event) {
                (WorkerView::Choosing, WorkerEventView::Taken(Some(work))) => {
                    PieceDownloadView::start(work.index, work.len)
                },
                (WorkerView::Fetching(_, download), WorkerEventView::Heard(heard)) => {
                    if heard.id == opcode::PIECE {
                        download.after_block(heard.payload)
                    } else {
                        download
                    }
                },
                (WorkerView::Fetching(_, download), _) => download,
                _ => arbitrary(),
            };
            assert(message == download.next_request());
        }
    }
}

/// A worker asks a peer only for the piece that it took last, only if the peer
/// had that piece when it took it, and only for what lies in the piece. The
/// first two messages that it has sent by then are UNCHOKE and INTEREST.
pub proof fn law_requests_follow_introduction(history: WorkerHistory)
    requires
        expected(history),
        history.len() > 0,
    ensures
        last_action(history) matches WorkerActionView::Send(message) ==> message.id
            == opcode::REQUEST ==> {
            &&& introduced(messages_sent(history.drop_last()))
            &&& last_taken(history) matches Some((work, peer))
            &&& work.index < peer.bits.len()
            &&& peer.bits[work.index as int]
            &&& asks_for(message, work)
        },
{
    let before = history.drop_last();
    let (peer, event) = history.last();
    lemma_on_course(before);
    lemma_on_course(history);
    law_request_is_for_held_piece(worker_after(before), peer, event);
}

fn send_bare(id: u8) -> (action: WorkerAction)
    ensures
        action@ == WorkerActionView::Send(bare(id)),
{
    let message = Message::new(id, None);
    assert(message@ =~= bare(id));
    WorkerAction::Send(message)
}

/// Goes on with a download.
fn fetch(work: PieceWork, download: PieceDownload, choked: bool) -> (result: (Worker, WorkerAction))
    requires
        WorkerView::Fetching(work, download@).wf(),
    ensures
        result.0@.wf(),
        (result.0@, result.1@) == fetching(work, download@, choked),
{
    let mut download = download;
    match download.next(choked) {
        DownloadStep::Done => {
            let digest = sha1(download.buf.as_slice());
            if same_bytes(&digest, &work.hash) {
                let mut payload: Vec<u8> = Vec::new();
                push_be32(
                    &mut payload,
                    #[verifier::truncate]
                    (work.index as u32),
                );
                let message = Message { id: opcode::HAVE, payload };
                assert(message@ =~= have_message(work.index));
                let result = PieceResult { index: work.index, buf: download.buf };
                (Worker::Announcing(result), WorkerAction::Send(message))
            } else {
                (Worker::Rejecting, WorkerAction::HandBack(work))
            }
        },
        DownloadStep::Request(message) => {
            (Worker::Fetching(work, download), WorkerAction::Send(message))
        },
        DownloadStep::Listen => (Worker::Fetching(work, download), WorkerAction::Listen),
    }
}

impl Worker {
    /// A worker that has done nothing yet.
    pub fn new() -> (worker: Worker)
        ensures
            worker@ == WorkerView::Fresh,
            worker@.wf(),
    {
        Worker::Fresh
    }

    /// Whether an event can follow the worker's last action.
    pub fn expects(&self, state: &PeerState, event: &WorkerEvent) -> (expected: bool)
        requires
            self@.wf(),
        ensures
            expected == self@.expects(state@, event@),
    {
        match (self, event) {
            (Worker::AwaitingBitfield, WorkerEvent::Heard(_)) => true,
            (Worker::Choosing, WorkerEvent::Taken(None)) => true,
            (Worker::Choosing, WorkerEvent::Taken(Some(work))) => {
                work.index < bit_count(&state.bitfield) && (!bit_at(&state.bitfield, work.index)
                    || work.len <= MAX_PIECE)
            },
            (Worker::Fetching(_, download), WorkerEvent::Heard(message)) => {
                download.can_take(message)
            },
            (Worker::AwaitingBitfield, _) => false,
            (Worker::Choosing, _) => false,
            (Worker::Ended, _) => false,
            (_, WorkerEvent::Ready) => true,
            _ => false,
        }
    }

    /// Decides, after an event, what the worker does next. `state` is the
    /// peer's state after the event.
    pub fn step(self, state: &PeerState, event: WorkerEvent) -> (result: (Worker, WorkerAction))
        requires
            self@.wf(),
            self@.expects(state@, event@),
        ensures
            result.0@.wf(),
            (result.0@, result.1@) == self@.step(state@, event@),
    {
        match (self, event) {
            (Worker::Fresh, _) => {
                if bit_count(&state.bitfield) == 0 {
                    (Worker::AwaitingBitfield, WorkerAction::AwaitBitfield)
                } else {
                    (Worker::Unchoking, send_bare(opcode::UNCHOKE))
                }
            },
            (Worker::AwaitingBitfield, _) => (Worker::Unchoking, send_bare(opcode::UNCHOKE)),
            (Worker::Unchoking, _) => (Worker::Interested, send_bare(opcode::INTEREST)),
            (Worker::Choosing, WorkerEvent::Taken(Some(work))) => {
                if bit_at(&state.bitfield, work.index) {
                    let download = PieceDownload::new(&work);
                    fetch(work, download, state.choked)
                } else {
                    (Worker::Handing, WorkerAction::HandBack(work))
                }
            },
            (Worker::Choosing, _) => (Worker::Ended, WorkerAction::Finish),
            (Worker::Fetching(work, mut download), WorkerEvent::Heard(message)) => {
                match download.take(&message) {
                    Ok(()) => fetch(work, download, state.choked),
                    Err(error) => (Worker::Failing(error), WorkerAction::HandBack(work)),
                }
            },
            (Worker::Fetching(work, download), _) => fetch(work, download, state.choked),
            (Worker::Announcing(result), _) => (Worker::Handing, WorkerAction::Deliver(result)),
            (Worker::Failing(error), _) => (Worker::Ended, WorkerAction::Fail(error)),
            (Worker::Rejecting, _) => (Worker::Ended, WorkerAction::Reject),
            (_, _) => (Worker::Choosing, WorkerAction::Take),
        }
    }

    /// Ends the worker when the connection breaks. The piece that it was
    /// downloading goes back; one that it was announcing does not.
    pub fn interrupt(self) -> (work: Option<PieceWork>)
        ensures
            work == self@.interrupted(),
    {
        match self {
            Worker::Fetching(work, _) => Some(work),
            _ => None,
        }
    }
}

/// A worker that takes a piece which the peer has, whichever piece it is, keeps
/// it and downloads it. If the peer does not choke it, it asks at once for the
/// piece's first 16384 bytes, or for all of it if it is shorter; if the peer
/// does, it listens. An empty piece needs no download and is judged at once.
pub proof fn law_offered_piece_is_fetched(peer: PeerView, work: PieceWork)
    requires
        work.index < peer.bits.len(),
        peer.bits[work.index as int],
        work.len <= 0xffff_c000,
    ensures
        ({
            let taken = WorkerEventView::Taken(Some(work));
            let (after, action) = WorkerView::Choosing.step(peer, taken);
            &&& WorkerView::Choosing.expects(peer, taken)
            &&& work.len == 0 ==> if sha1_digest(seq![]) == work.hash@ {
                &&& after == WorkerView::Announcing(work.index, seq![])
                &&& action == WorkerActionView::Send(
                    MessageView { id: opcode::HAVE, payload: be32(work.index as u32) },
                )
            } else {
                &&& after == WorkerView::Rejecting
                &&& action == WorkerActionView::HandBack(work)
            }
        }),
        work.len > 0 ==> ({
            let taken = WorkerEventView::Taken(Some(work));
            let (after, action) = WorkerView::Choosing.step(peer, taken);
            &&& after matches WorkerView::Fetching(held, download)
            &&& held == work
            &&& download.index == work.index
            &&& download.buf.len() == work.len
            &&& download.downloaded == 0
            &&& peer.choked ==> {
                &&& action == WorkerActionView::Listen
                &&& download.requested == 0
                &&& download.backlog == 0
            }
            &&& !peer.choked ==> {
                &&& action == WorkerActionView::Send(
                    MessageView {
                        id: opcode::REQUEST,
                        payload: be32(work.index as u32) + be32(0) + be32(download.requested),
                    },
                )
                &&& work.len >= 16384 ==> download.requested == 16384
                &&& work.len < 16384 ==> download.requested == work.len
                &&& download.backlog == 1
            }
        }),
{
    assert(PieceDownloadView::start(work.index, 0).buf =~= seq![]);
}

/// Once as many bytes have come in as a piece has, the worker announces it if its
/// digest is the one that it should have, and hands it back if it is not. It
/// holds on to what came in until it delivers it.
pub proof fn law_whole_piece_is_judged(work: PieceWork, download: PieceDownloadView, choked: bool)
    requires
        download.buf.len() <= download.downloaded,
    ensures
        sha1_digest(download.buf) == work.hash@ ==> fetching(work, download, choked) == (
            WorkerView::Announcing(work.index, download.buf),
            WorkerActionView::Send(
                MessageView { id: opcode::HAVE, payload: be32(work.index as u32) },
            ),
        ),
        sha1_digest(download.buf) != work.hash@ ==> fetching(work, download, choked) == (
            WorkerView::Rejecting,
            WorkerActionView::HandBack(work),
        ),
{
}

/// Until then the worker goes on with the same piece: it sends a request if the
/// peer does not choke, fewer than five are unanswered and part of the piece
/// has not been asked for, and it listens otherwise.
pub proof fn law_partial_piece_goes_on(work: PieceWork, download: PieceDownloadView, choked: bool)
    requires
        download.downloaded < download.buf.len(),
    ensures
        !choked && download.backlog < 5 && download.requested < download.buf.len() ==> fetching(
            work,
            download,
            choked,
        ) == (
            WorkerView::Fetching(work, download.after_request()),
            WorkerActionView::Send(download.next_request()),
        ),
        choked || download.backlog >= 5 || download.requested >= download.buf.len() ==> fetching(
            work,
            download,
            choked,
        ) == (WorkerView::Fetching(work, download), WorkerActionView::Listen),
{
}

/// A worker that downloads a piece takes in each block that fits, hands the piece
/// back with the error for one that does not, and goes on after any other
/// message as if nothing had come in.
pub proof fn law_worker_hears(
    work: PieceWork,
    download: PieceDownloadView,
    peer: PeerView,
    message: MessageView,
)
    ensures
        ({
            let worker = WorkerView::Fetching(work, download);
            let heard = worker.step(peer, WorkerEventView::Heard(message));
            &&& worker.expects(peer, WorkerEventView::Heard(message)) <==> download.can_take(message)
            &&& worker.expects(peer, WorkerEventView::Ready)
            &&& worker.step(peer, WorkerEventView::Ready) == fetching(work, download, peer.choked)
            &&& message.id != opcode::PIECE ==> heard == fetching(work, download, peer.choked)
            &&& message.id == opcode::PIECE ==> match download.refusal(message.payload) {
                Some(error) => heard == (
                    WorkerView::Failing(error),
                    WorkerActionView::HandBack(work),
                ),
                None => heard == fetching(
                    work,
                    download.after_block(message.payload),
                    peer.choked,
                ),
            }
        }),
{
}

/// How a worker begins: if it does not know which pieces the peer has, it waits to
/// be told. Then it sends UNCHOKE, then INTEREST, then it takes a piece, whatever
/// the peer says in between.
pub proof fn law_worker_begins(
    fresh: PeerView,
    told: PeerView,
    peers: (PeerView, PeerView),
    message: MessageView,
)
    ensures
        ({
            let ready = WorkerEventView::Ready;
            let first = WorkerView::Fresh.step(fresh, ready);
            let heard = WorkerEventView::Heard(message);
            let unchoked = if fresh.bits.len() == 0 {
                first.0.step(told, heard)
            } else {
                first
            };
            let interested = unchoked.0.step(peers.0, ready);
            let choosing = interested.0.step(peers.1, ready);
            &&& WorkerView::Fresh.expects(fresh, ready)
            &&& fresh.bits.len() == 0 ==> {
                &&& first.1 == WorkerActionView::AwaitBitfield
                &&& first.0.expects(told, heard)
            }
            &&& unchoked.1 == WorkerActionView::Send(
                MessageView { id: opcode::UNCHOKE, payload: seq![] },
            )
            &&& unchoked.0.expects(peers.0, ready)
            &&& interested.1 == WorkerActionView::Send(
                MessageView { id: opcode::INTEREST, payload: seq![] },
            )
            &&& interested.0.expects(peers.1, ready)
            &&& choosing == (WorkerView::Choosing, WorkerActionView::Take)
        }),
{
}

/// How a worker goes on without a download: it delivers what it has announced and
/// takes the next piece, or ends, without an error when no piece is left, with
/// the error that came up, or because the contents of a piece were wrong. It
/// takes a piece again after it has handed one over.
pub proof fn law_worker_goes_on(peer: PeerView, index: usize, buf: Seq<u8>, error: PieceError)
    ensures
        ({
            let ready = WorkerEventView::Ready;
            let none = WorkerEventView::Taken(None);
            &&& WorkerView::Announcing(index, buf).expects(peer, ready)
            &&& WorkerView::Announcing(index, buf).step(peer, ready) == (
                WorkerView::Handing,
                WorkerActionView::Deliver(index, buf),
            )
            &&& WorkerView::Handing.expects(peer, ready)
            &&& WorkerView::Handing.step(peer, ready) == (
                WorkerView::Choosing,
                WorkerActionView::Take,
            )
            &&& WorkerView::Choosing.expects(peer, none)
            &&& WorkerView::Choosing.step(peer, none) == (
                WorkerView::Ended,
                WorkerActionView::Finish,
            )
            &&& WorkerView::Failing(error).expects(peer, ready)
            &&& WorkerView::Failing(error).step(peer, ready) == (
                WorkerView::Ended,
                WorkerActionView::Fail(error),
            )
            &&& WorkerView::Rejecting.expects(peer, ready)
            &&& WorkerView::Rejecting.step(peer, ready) == (
                WorkerView::Ended,
                WorkerActionView::Reject,
            )
        }),
{
}

/// When the connection breaks, the piece that is being downloaded goes back as it
/// was taken, and no other.
pub proof fn law_broken_connection_gives_back(worker: WorkerView, work: PieceWork)
    ensures
        worker.interrupted() == Some(work) <==> (worker matches WorkerView::Fetching(held, _)
            && held == work),
{
}

/// The models of a worker, of events and of actions have all that these have.
pub proof fn law_worker_is_modelled(worker: Worker, event: WorkerEvent, action: WorkerAction)
    ensures
        worker@ is Fresh <==> worker is Fresh,
        worker@ is AwaitingBitfield <==> worker is AwaitingBitfield,
        worker@ is Unchoking <==> worker is Unchoking,
        worker@ is Interested <==> worker is Interested,
        worker@ is Choosing <==> worker is Choosing,
        worker matches Worker::Fetching(work, download) ==> worker@ == WorkerView::Fetching(
            work,
            download@,
        ),
        worker matches Worker::Announcing(result) ==> worker@ == WorkerView::Announcing(
            result.index,
            result.buf@,
        ),
        worker@ is Handing <==> worker is Handing,
        worker matches Worker::Failing(error) ==> worker@ == WorkerView::Failing(error),
        worker@ is Rejecting <==> worker is Rejecting,
        worker@ is Ended <==> worker is Ended,
        event@ is Ready <==> event is Ready,
        event matches WorkerEvent::Heard(message) ==> event@ == WorkerEventView::Heard(message@),
        event matches WorkerEvent::Taken(work) ==> event@ == WorkerEventView::Taken(work),
        action matches WorkerAction::Send(message) ==> action@ == WorkerActionView::Send(message@),
        action@ is AwaitBitfield <==> action is AwaitBitfield,
        action@ is Listen <==> action is Listen,
        action@ is Take <==> action is Take,
        action matches WorkerAction::HandBack(work) ==> action@ == WorkerActionView::HandBack(work),
        action matches WorkerAction::Deliver(result) ==> action@ == WorkerActionView::Deliver(
            result.index,
            result.buf@,
        ),
        action@ is Finish <==> action is Finish,
        action matches WorkerAction::Fail(error) ==> action@ == WorkerActionView::Fail(error),
        action@ is Reject <==> action is Reject,
{
}

} // verus!
