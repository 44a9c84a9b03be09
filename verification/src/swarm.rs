//! Working with many peers at a time.
use vstd::prelude::*;

use crate::torrent::Torrent;

verus! {

/// The peers that are being worked with.
#[derive(Debug, Clone, Copy, PartialEq, Eq, Structural)]
pub struct Swarm {
    /// How many peers there are; they are numbered from zero.
    pub peers: usize,
    /// How many of them have a worker.
    pub active: usize,
}

/// What happens in a swarm.
#[derive(Debug, Clone, Copy, PartialEq, Eq, Structural)]
pub enum SwarmEvent {
    /// A peer has shaken hands.
    PeerFound,
    /// A worker has ended, with or without an error.
    WorkerEnded,
    /// The result that the swarm works for is there.
    Finished,
}

/// What is done then.
#[derive(Debug, Clone, Copy, PartialEq, Eq, Structural)]
pub enum SwarmAction {
    /// The peer with this number is kept and gets a worker.
    Start(usize),
    /// The others go on.
    Continue,
    /// All workers are stopped.
    Stop,
}

impl Swarm {
    /// There are no more workers than peers.
    pub open spec fn wf(self) -> bool {
        self.active <= self.peers
    }

    /// Whether an event can happen.
    pub open spec fn expects(self, event: SwarmEvent) -> bool {
        match event {
            SwarmEvent::PeerFound => self.peers < usize::MAX,
            SwarmEvent::WorkerEnded => self.active > 0,
            SwarmEvent::Finished => true,
        }
    }

    /// The swarm after an event, and what is done then.
    pub open spec fn after(self, event: SwarmEvent) -> (Swarm, SwarmAction) {
        match event {
            SwarmEvent::PeerFound => (
                Swarm { peers: (self.peers + 1) as usize, active: (self.active + 1) as usize },
                SwarmAction::Start(self.peers),
            ),
            SwarmEvent::WorkerEnded => (
                Swarm { active: (self.active - 1) as usize, ..self },
                SwarmAction::Continue,
            ),
            SwarmEvent::Finished => (Swarm { active: 0, ..self }, SwarmAction::Stop),
        }
    }

    /// A swarm in which each of the peers that are there gets a worker.
    pub fn new(peers: usize) -> (swarm: Swarm)
        ensures
            swarm == (Swarm { peers, active: peers }),
            swarm.wf(),
    {
        Swarm { peers, active: peers }
    }

    /// Decides what is done when something happens. A new peer is kept, whatever
    /// becomes of its worker, and so are the others when all is done.
    pub fn step(&mut self, event: SwarmEvent) -> (action: SwarmAction)
        requires
            old(self).wf(),
            old(self).expects(event),
        ensures
            final(self).wf(),
            (*final(self), action) == old(self).after(event),
            match event {
                SwarmEvent::PeerFound => {
                    &&& action == SwarmAction::Start(old(self).peers)
                    &&& final(self).peers == old(self).peers + 1
                    &&& final(self).active == old(self).active + 1
                },
                SwarmEvent::WorkerEnded => {
                    &&& action == SwarmAction::Continue
                    &&& final(self).peers == old(self).peers
                    &&& final(self).active == old(self).active - 1
                },
                SwarmEvent::Finished => {
                    &&& action == SwarmAction::Stop
                    &&& final(self).peers == old(self).peers
                    &&& final(self).active == 0
                },
            },
    {
        match event {
            SwarmEvent::PeerFound => {
                let number: usize = self.peers;
                self.peers = self.peers + 1;
                self.active = self.active + 1;
                SwarmAction::Start(number)
            },
            SwarmEvent::WorkerEnded => {
                self.active = self.active - 1;
                SwarmAction::Continue
            },
            SwarmEvent::Finished => {
                self.active = 0;
                SwarmAction::Stop
            },
        }
    }
}

/// What happens while handshakes are made with the peers that connect.
#[derive(Debug, Clone, Copy, PartialEq, Eq, Structural)]
pub enum CandidateEvent {
    /// A peer is connected.
    Connected,
    /// A peer could not be connected.
    Refused,
    /// No more peers will connect.
    Exhausted,
    /// A handshake has succeeded.
    Shaken,
    /// A handshake has failed.
    Failed,
}

/// What is done then.
#[derive(Debug, Clone, Copy, PartialEq, Eq, Structural)]
pub enum CandidateAction {
    /// A handshake is begun, in which the peer is told this size of the
    /// metadata.
    Greet(Option<u32>),
    /// The peer is handed on.
    Yield,
    /// Nothing is done.
    Skip,
    /// No more peers are handed on, not even those in a handshake.
    Stop,
}

/// What is done while handshakes are made, where peers are told this size of
/// the metadata.
pub open spec fn candidate_action(size: Option<u32>, event: CandidateEvent) -> CandidateAction {
    match event {
        CandidateEvent::Connected => CandidateAction::Greet(size),
        CandidateEvent::Refused => CandidateAction::Skip,
        CandidateEvent::Exhausted => CandidateAction::Stop,
        CandidateEvent::Shaken => CandidateAction::Yield,
        CandidateEvent::Failed => CandidateAction::Skip,
    }
}

impl Torrent {
    /// Decides what is done while handshakes are made.
    pub fn handshake_stream(&self, event: CandidateEvent) -> (action: CandidateAction)
        ensures
            action == candidate_action(self@.metadata_size(), event),
            action == match event {
                CandidateEvent::Connected => CandidateAction::Greet(self@.metadata_size()),
                CandidateEvent::Refused => CandidateAction::Skip,
                CandidateEvent::Exhausted => CandidateAction::Stop,
                CandidateEvent::Shaken => CandidateAction::Yield,
                CandidateEvent::Failed => CandidateAction::Skip,
            },
    {
        match event {
            CandidateEvent::Connected => CandidateAction::Greet(self.metadata_size()),
            CandidateEvent::Refused => CandidateAction::Skip,
            CandidateEvent::Exhausted => CandidateAction::Stop,
            CandidateEvent::Shaken => CandidateAction::Yield,
            CandidateEvent::Failed => CandidateAction::Skip,
        }
    }
}

/// A swarm after some events.
pub open spec fn swarm_after(start: Swarm, events: Seq<SwarmEvent>) -> Swarm
    decreases events.len(),
{
    if events.len() == 0 {
        start
    } else {
        swarm_after(start, events.drop_last()).after(events.last()).0
    }
}

/// Whether each event could happen when it did.
pub open spec fn swarm_allows(start: Swarm, events: Seq<SwarmEvent>) -> bool
    decreases events.len(),
{
    events.len() > 0 ==> swarm_allows(start, events.drop_last()) && swarm_after(
        start,
        events.drop_last(),
    ).expects(events.last())
}

/// How often something happened.
pub open spec fn times(events: Seq<SwarmEvent>, event: SwarmEvent) -> nat
    decreases events.len(),
{
    if events.len() == 0 {
        0
    } else {
        times(events.drop_last(), event) + if events.last() == event {
            1nat
        } else {
            0nat
        }
    }
}

/// A swarm counts right: it has the peers that were there and those that were
/// found, and as long as the result is not there, as many workers as peers
/// less those that have ended.
pub proof fn law_swarm_counts(peers: usize, events: Seq<SwarmEvent>)
    requires
        swarm_allows(Swarm { peers, active: peers }, events),
    ensures
        ({
            let now = swarm_after(Swarm { peers, active: peers }, events);
            &&& now.wf()
            &&& now.peers == peers + times(events, SwarmEvent::PeerFound)
            &&& times(events, SwarmEvent::Finished) == 0 ==> now.active == now.peers - times(
                events,
                SwarmEvent::WorkerEnded,
            )
        }),
    decreases events.len(),
{
    if events.len() > 0 {
        law_swarm_counts(peers, events.drop_last());
    }
}

/// A new peer always gets a worker and the next free number, the end of a worker
/// stops nothing, and the result stops all workers. There is always room for
/// the end of a worker that runs.
pub proof fn law_swarm_answers(swarm: Swarm)
    requires
        swarm.wf(),
    ensures
        swarm.after(SwarmEvent::PeerFound).1 == SwarmAction::Start(swarm.peers),
        swarm.after(SwarmEvent::WorkerEnded).1 == SwarmAction::Continue,
        swarm.after(SwarmEvent::Finished).1 == SwarmAction::Stop,
        swarm.after(SwarmEvent::Finished).0.active == 0,
        swarm.peers < usize::MAX ==> swarm.expects(SwarmEvent::PeerFound),
        swarm.active > 0 ==> swarm.expects(SwarmEvent::WorkerEnded),
        swarm.expects(SwarmEvent::Finished),
{
}

/// Every peer that connects is greeted with the size that is told, every one
/// that has shaken hands is handed on, failures are passed over, and nothing
/// but the end of the connections stops it.
pub proof fn law_candidates_are_handed_on(size: Option<u32>, event: CandidateEvent)
    ensures
        candidate_action(size, CandidateEvent::Connected) == CandidateAction::Greet(size),
        candidate_action(size, event) == CandidateAction::Yield <==> event
            == CandidateEvent::Shaken,
        candidate_action(size, event) == CandidateAction::Stop <==> event
            == CandidateEvent::Exhausted,
        candidate_action(size, event) is Greet <==> event == CandidateEvent::Connected,
        candidate_action(size, event) == CandidateAction::Skip <==> event
            == CandidateEvent::Refused || event == CandidateEvent::Failed,
{
}

} // verus!
