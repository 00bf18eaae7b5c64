//! The life of a peer: attempts, sessions and the pauses between them.
use vstd::arithmetic::power2::{lemma2_to64, pow2};
use vstd::prelude::*;

use crate::clock::passed;

verus! {

/// A session that lasted this long was a success.
pub const STABLE_MS: u64 = 30_000;

/// The pause after this many failures in a row, in seconds: one, doubled with each
/// of the first five, and at most half a minute.
pub open spec fn pause_secs(failures: u32) -> u64 {
    let doubled = pow2(
        if failures <= 5 {
            failures as nat
        } else {
            5
        },
    );
    if doubled <= 30 {
        doubled as u64
    } else {
        30
    }
}

/// How many seconds to pause after this many failures in a row.
pub fn backoff_secs(failures: u32) -> (r: u64)
    ensures
        r == pause_secs(failures),
{
    proof {
        lemma2_to64();
    }
    match failures {
        0 => 1,
        1 => 2,
        2 => 4,
        3 => 8,
        4 => 16,
        _ => 30,
    }
}

/// The failures of a peer in a row.
#[derive(Clone, Copy, Debug, PartialEq, Eq, Structural)]
pub struct Backoff {
    pub failures: u32,
}

impl Backoff {
    /// The count after one more failure.
    pub open spec fn failed_again(self) -> Backoff {
        Backoff {
            failures: if self.failures == u32::MAX {
                u32::MAX
            } else {
                (self.failures + 1) as u32
            },
        }
    }

    /// No failure so far.
    pub fn new() -> (r: Backoff)
        ensures
            r.failures == 0,
    {
        Backoff { failures: 0 }
    }

    /// How long to wait before another attempt, in milliseconds, with a jitter
    /// below one second.
    pub fn next_delay(&mut self, jitter_ms: u32) -> (r: u64)
        requires
            jitter_ms < 1000,
        ensures
            *final(self) == old(self).failed_again(),
            r == pause_secs(old(self).failed_again().failures) * 1000 + jitter_ms,
    {
        self.failures = self.failures.saturating_add(1);
        proof {
            law_backoff_is_bounded(*old(self), jitter_ms);
        }
        backoff_secs(self.failures) * 1000 + jitter_ms as u64
    }
}

/// Pauses grow with failures and stay between two and thirty-one seconds.
pub proof fn law_backoff_is_bounded(b: Backoff, jitter_ms: u32)
    requires
        jitter_ms < 1000,
    ensures
        pause_secs(b.failures) <= pause_secs(b.failed_again().failures),
        2000 <= pause_secs(b.failed_again().failures) * 1000 + jitter_ms < 31_000,
{
    lemma2_to64();
}

/// Where the life of a peer stands.
#[derive(Clone, Copy, Debug, PartialEq, Eq, Structural)]
pub enum PeerStage {
    /// A connection is being selected.
    Connect,
    /// A session that started at this time.
    Session(u64),
    /// A pause before the next attempt.
    Pause,
    /// A session that the peer started during a pause.
    Incoming,
}

/// What happens to a peer.
#[derive(Clone, Copy, Debug, PartialEq, Eq, Structural)]
pub enum PeerEvent {
    Selected,
    SelectionFailed,
    SessionEnded,
    PauseOver,
    /// The peer connects.
    Connected,
}

/// What to do next.
#[derive(Clone, Copy, Debug, PartialEq, Eq, Structural)]
pub enum PeerAction {
    /// Select a connection.
    Select,
    /// Run a session on the selected connection.
    Run,
    /// Wait this many milliseconds, unless the peer connects.
    Pause(u64),
    /// Exchange OPENs on the new connection and run a session on it.
    Accept,
    /// Close the new connection: the session that is there wins.
    Refuse,
}

/// Attempts at a peer, without end.
#[derive(Clone, Copy, Debug, PartialEq, Eq, Structural)]
pub struct PeerLoop {
    pub stage: PeerStage,
    pub backoff: Backoff,
}

impl PeerLoop {
    /// Whether an event can happen in this stage.
    pub open spec fn expects(self, e: PeerEvent) -> bool {
        match self.stage {
            PeerStage::Connect => e == PeerEvent::Selected || e == PeerEvent::SelectionFailed,
            PeerStage::Session(_) => e == PeerEvent::SessionEnded || e == PeerEvent::Connected,
            PeerStage::Pause => e == PeerEvent::PauseOver || e == PeerEvent::Connected,
            PeerStage::Incoming => e == PeerEvent::SessionEnded,
        }
    }

    /// The failures that count for the next pause, after a session that started then.
    pub open spec fn after_session(self, started: u64, now: u64) -> Backoff {
        if passed(now, started, STABLE_MS) {
            Backoff { failures: 0 }
        } else {
            self.backoff
        }
    }

    /// Where an event leads.
    pub open spec fn moved(self, e: PeerEvent, now: u64, jitter_ms: u32) -> (PeerLoop, PeerAction) {
        let pausing = |b: Backoff|
            (
                PeerLoop { stage: PeerStage::Pause, backoff: b.failed_again() },
                PeerAction::Pause(
                    (pause_secs(b.failed_again().failures) * 1000 + jitter_ms) as u64,
                ),
            );
        match (self.stage, e) {
            (PeerStage::Connect, PeerEvent::Selected) => (
                PeerLoop { stage: PeerStage::Session(now), ..self },
                PeerAction::Run,
            ),
            (PeerStage::Connect, _) => pausing(self.backoff),
            (PeerStage::Session(started), PeerEvent::SessionEnded) => pausing(
                self.after_session(started, now),
            ),
            (PeerStage::Session(_), _) => (self, PeerAction::Refuse),
            (PeerStage::Pause, PeerEvent::Connected) => (
                PeerLoop { stage: PeerStage::Incoming, ..self },
                PeerAction::Accept,
            ),
            (_, _) => (PeerLoop { stage: PeerStage::Connect, ..self }, PeerAction::Select),
        }
    }

    /// Start by selecting a connection.
    pub fn new() -> (r: PeerLoop)
        ensures
            r == (PeerLoop { stage: PeerStage::Connect, backoff: Backoff { failures: 0 } }),
    {
        PeerLoop { stage: PeerStage::Connect, backoff: Backoff::new() }
    }

    /// Take an event, with a jitter below one second for a pause that may follow.
    pub fn step(&mut self, e: PeerEvent, now: u64, jitter_ms: u32) -> (r: PeerAction)
        requires
            old(self).expects(e),
            jitter_ms < 1000,
        ensures
            (*final(self), r) == old(self).moved(e, now, jitter_ms),
    {
        match self.stage {
            PeerStage::Connect => {
                if e == PeerEvent::Selected {
                    self.stage = PeerStage::Session(now);
                    return PeerAction::Run;
                }
            },
            PeerStage::Session(started) => {
                if e != PeerEvent::SessionEnded {
                    return PeerAction::Refuse;
                }
                if passed(now, started, STABLE_MS) {
                    self.backoff = Backoff::new();
                }
            },
            PeerStage::Pause => {
                if e == PeerEvent::Connected {
                    self.stage = PeerStage::Incoming;
                    return PeerAction::Accept;
                }
                self.stage = PeerStage::Connect;
                return PeerAction::Select;
            },
            PeerStage::Incoming => {
                self.stage = PeerStage::Connect;
                return PeerAction::Select;
            },
        }
        self.stage = PeerStage::Pause;
        PeerAction::Pause(self.backoff.next_delay(jitter_ms))
    }
}

/// A session is never given up for a new connection of the peer.
pub proof fn law_session_wins_over_new_connections(p: PeerLoop, now: u64, jitter_ms: u32)
    requires
        p.stage is Session,
    ensures
        p.moved(PeerEvent::Connected, now, jitter_ms) == (p, PeerAction::Refuse),
{
}

/// A peer whose attempts go on failing is tried again, after pauses that never
/// get shorter and never exceed thirty-one seconds.
pub proof fn law_failing_peer_is_tried_again(p: PeerLoop, now: u64, then: u64, jitter_ms: u32)
    requires
        p.stage == PeerStage::Connect,
        jitter_ms < 1000,
    ensures
        ({
            let (paused, action) = p.moved(PeerEvent::SelectionFailed, now, jitter_ms);
            &&& action matches PeerAction::Pause(ms) && pause_secs(p.backoff.failures) * 1000
                <= ms < 31_000
            &&& paused.moved(PeerEvent::PauseOver, then, jitter_ms).1 == PeerAction::Select
        }),
{
    law_backoff_is_bounded(p.backoff, jitter_ms);
}

} // verus!
