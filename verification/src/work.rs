//! Pieces to download, and the queue in which they wait.
use crossbeam_channel::{Receiver, SendError, Sender, TryRecvError};
use vstd::prelude::*;

verus! {

/// A piece that is to be downloaded.
#[derive(Debug, PartialEq, Eq)]
pub struct PieceWork {
    /// Which piece it is.
    pub index: usize,
    /// The SHA-1 digest of its contents.
    pub hash: [u8; 20],
    /// Its length in bytes.
    pub len: u32,
}

/// A piece that has been downloaded.
#[derive(Debug, PartialEq, Eq)]
pub struct PieceResult {
    /// Which piece it is.
    pub index: usize,
    /// Its contents.
    pub buf: Vec<u8>,
}

/// What a worker hands to the collector.
#[derive(Debug, PartialEq, Eq)]
pub enum Download {
    /// A piece that it has downloaded.
    Result(PieceResult),
    /// A piece that it could not download.
    Work(PieceWork),
}

/// What a worker hands over, with a piece's contents as a sequence.
#[verifier::ext_equal]
pub enum DownloadView {
    Result(usize, Seq<u8>),
    Work(PieceWork),
}

impl View for Download {
    type V = DownloadView;

    open spec fn view(&self) -> DownloadView {
        match *self {
            Download::Result(piece) => DownloadView::Result(piece.index, piece.buf@),
            Download::Work(work) => DownloadView::Work(work),
        }
    }
}

/// The piece that comes next out of a queue, if any waits, and those that wait
/// then.
pub open spec fn next_of(waiting: Seq<PieceWork>) -> (Option<PieceWork>, Seq<PieceWork>) {
    if waiting.len() == 0 {
        (None, waiting)
    } else {
        (Some(waiting.first()), waiting.drop_first())
    }
}

/// The sending end of a channel.
#[verifier::external_type_specification]
#[verifier::external_body]
#[verifier::reject_recursive_types(T)]
pub struct ExSender<T>(crossbeam_channel::Sender<T>);

/// The receiving end of a channel.
#[verifier::external_type_specification]
#[verifier::external_body]
#[verifier::reject_recursive_types(T)]
pub struct ExReceiver<T>(crossbeam_channel::Receiver<T>);

/// Why something could not be sent.
#[verifier::external_type_specification]
#[verifier::external_body]
#[verifier::reject_recursive_types(T)]
pub struct ExSendError<T>(crossbeam_channel::SendError<T>);

/// Why nothing was received.
#[verifier::external_type_specification]
#[verifier::external_body]
pub struct ExTryRecvError(crossbeam_channel::TryRecvError);

/// What has been sent over a channel and not yet received, oldest first.
pub uninterp spec fn in_channel(ends: (Sender<PieceWork>, Receiver<PieceWork>)) -> Seq<PieceWork>;

/// How much a channel can hold; `None` if these are not the only two ends of
/// one bounded channel.
pub uninterp spec fn channel_capacity(ends: (Sender<PieceWork>, Receiver<PieceWork>)) -> Option<
    nat,
>;

/// Calls `crossbeam_channel::bounded`, which makes an empty channel of the
/// given capacity and panics where its slots would not fit in memory.
#[verifier::external_body]
fn bounded(capacity: usize) -> (ends: (Sender<PieceWork>, Receiver<PieceWork>))
    requires
        capacity <= usize::MAX / 128,
    ensures
        in_channel(ends) == Seq::<PieceWork>::empty(),
        channel_capacity(ends) == Some(capacity as nat),
{
    crossbeam_channel::bounded(capacity)
}

/// Calls `Sender::send`, which appends an item. It waits while the channel is
/// full and fails only if the other end is gone.
#[verifier::external_body]
fn send(ends: &mut (Sender<PieceWork>, Receiver<PieceWork>), work: PieceWork) -> (result: Result<
    (),
    SendError<PieceWork>,
>)
    requires
        channel_capacity(*old(ends)) matches Some(n) && in_channel(*old(ends)).len() < n,
    ensures
        result is Ok,
        in_channel(*final(ends)) == in_channel(*old(ends)).push(work),
        channel_capacity(*final(ends)) == channel_capacity(*old(ends)),
{
    ends.0.send(work)
}

/// Calls `Receiver::try_recv`, which takes the oldest item, or fails if there
/// is none.
#[verifier::external_body]
fn try_recv(ends: &mut (Sender<PieceWork>, Receiver<PieceWork>)) -> (result: Result<
    PieceWork,
    TryRecvError,
>)
    requires
        channel_capacity(*old(ends)) is Some,
    ensures
        in_channel(*old(ends)).len() == 0 ==> result is Err && in_channel(*final(ends))
            == in_channel(*old(ends)),
        in_channel(*old(ends)).len() > 0 ==> {
            &&& result == Ok::<PieceWork, TryRecvError>(in_channel(*old(ends)).first())
            &&& in_channel(*final(ends)) == in_channel(*old(ends)).drop_first()
        },
        channel_capacity(*final(ends)) == channel_capacity(*old(ends)),
{
    ends.1.try_recv()
}

/// Calls `Receiver::len`, which counts the items in the channel.
#[verifier::external_body]
fn channel_len(ends: &(Sender<PieceWork>, Receiver<PieceWork>)) -> (len: usize)
    requires
        channel_capacity(*ends) is Some,
    ensures
        len == in_channel(*ends).len(),
{
    ends.1.len()
}

/// Calls `Receiver::capacity`, which a bounded channel has.
#[verifier::external_body]
fn capacity(ends: &(Sender<PieceWork>, Receiver<PieceWork>)) -> (capacity: Option<usize>)
    requires
        channel_capacity(*ends) is Some,
    ensures
        capacity matches Some(n) ==> channel_capacity(*ends) == Some(n as nat),
        capacity is Some,
{
    ends.1.capacity()
}

/// The queue of the pieces that are still to be downloaded.
pub struct PieceQueue {
    ends: (Sender<PieceWork>, Receiver<PieceWork>),
}

impl PieceQueue {
    /// The pieces that wait, the next one first.
    pub closed spec fn waiting(&self) -> Seq<PieceWork> {
        in_channel(self.ends)
    }

    /// How many pieces can wait.
    pub closed spec fn limit(&self) -> nat {
        channel_capacity(self.ends)->0
    }

    /// Both ends belong to one channel, and it is not overfull.
    pub closed spec fn wf(&self) -> bool {
        &&& channel_capacity(self.ends) is Some
        &&& in_channel(self.ends).len() <= channel_capacity(self.ends)->0 <= usize::MAX
    }

    /// No more pieces wait than can.
    pub proof fn law_within_limit(&self)
        requires
            self.wf(),
        ensures
            self.waiting().len() <= self.limit() <= usize::MAX,
    {
    }

    /// An empty queue for up to `limit` pieces.
    pub fn new(limit: usize) -> (queue: PieceQueue)
        requires
            limit <= usize::MAX / 128,
        ensures
            queue.wf(),
            queue.waiting() == Seq::<PieceWork>::empty(),
            queue.limit() == limit,
    {
        PieceQueue { ends: bounded(limit) }
    }

    /// Appends a piece.
    pub fn put(&mut self, work: PieceWork)
        requires
            old(self).wf(),
            old(self).waiting().len() < old(self).limit(),
        ensures
            final(self).wf(),
            final(self).waiting() == old(self).waiting().push(work),
            final(self).limit() == old(self).limit(),
    {
        send(&mut self.ends, work).unwrap()
    }

    /// Takes the next piece, if any waits.
    pub fn take(&mut self) -> (work: Option<PieceWork>)
        requires
            old(self).wf(),
        ensures
            final(self).wf(),
            final(self).limit() == old(self).limit(),
            (work, final(self).waiting()) == next_of(old(self).waiting()),
    {
        match try_recv(&mut self.ends) {
            Ok(work) => Some(work),
            Err(_) => None,
        }
    }

    /// How many pieces wait.
    pub fn len(&self) -> (len: usize)
        requires
            self.wf(),
        ensures
            len == self.waiting().len(),
    {
        channel_len(&self.ends)
    }

    /// How many pieces can wait.
    pub fn capacity(&self) -> (limit: usize)
        requires
            self.wf(),
        ensures
            limit == self.limit(),
    {
        capacity(&self.ends).unwrap()
    }
}

/// The pieces that come out of a queue when as many as `n` are taken, and those
/// that wait then.
pub open spec fn taken(waiting: Seq<PieceWork>, n: nat) -> (Seq<PieceWork>, Seq<PieceWork>)
    decreases n,
{
    if n == 0 {
        (seq![], waiting)
    } else {
        let (out, rest) = taken(waiting, (n - 1) as nat);
        match next_of(rest) {
            (Some(work), after) => (out.push(work), after),
            (None, after) => (out, after),
        }
    }
}

/// Pieces come out of a queue in the order in which they wait in it, none twice
/// and none left out; an empty queue gives none.
pub proof fn law_queue_keeps_order(first: Seq<PieceWork>, rest: Seq<PieceWork>)
    ensures
        taken(first + rest, first.len()) == (first, rest),
        next_of(Seq::<PieceWork>::empty()) == (None::<PieceWork>, Seq::<PieceWork>::empty()),
    decreases first.len(),
{
    if first.len() == 0 {
        assert(first + rest =~= rest);
        assert(first =~= seq![]);
    } else {
        let before = first.drop_last();
        let last = seq![first.last()] + rest;
        assert(first + rest =~= before + last);
        law_queue_keeps_order(before, last);
        assert(last.drop_first() =~= rest);
        assert(before.push(first.last()) =~= first);
    }
}

/// The model of what a worker hands over has all that this has.
pub proof fn law_download_is_modelled(download: Download)
    ensures
        download matches Download::Result(piece) ==> download@ == DownloadView::Result(
            piece.index,
            piece.buf@,
        ),
        download matches Download::Work(work) ==> download@ == DownloadView::Work(work),
{
}

} // verus!
