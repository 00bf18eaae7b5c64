//! How each peer is doing.
use vstd::prelude::*;

use crate::config::Config;

verus! {

/// How many clients the console serves at a time.
pub const MAX_CLIENTS: usize = 16;

/// The state of a peer, when it was entered, and the last error.
#[derive(Clone, Debug)]
pub struct PeerStatus {
    pub state: &'static str,
    pub since: u64,
    pub last_error: Option<String>,
}

/// Create Idle status records in configuration peer order.
pub fn statuses(cfg: &Config, now: u64) -> (r: Vec<PeerStatus>)
    ensures
        r@.len() == cfg.peers@.len(),
        forall|i: int|
            0 <= i < r@.len() ==> {
                &&& (#[trigger] r@[i]).state@ == "Idle"@
                &&& r@[i].since == now
                &&& r@[i].last_error is None
            },
{
    let mut r: Vec<PeerStatus> = Vec::new();
    let mut i: usize = 0;
    while i < cfg.peers.len()
        invariant
            i <= cfg.peers@.len(),
            r@.len() == i,
            forall|j: int|
                0 <= j < i ==> {
                    &&& (#[trigger] r@[j]).state@ == "Idle"@
                    &&& r@[j].since == now
                    &&& r@[j].last_error is None
                },
        decreases cfg.peers@.len() - i,
    {
        r.push(PeerStatus { state: "Idle", since: now, last_error: None });
        i += 1;
    }
    r
}

/// Set the state and reset its age, preserving the last error when none is supplied.
pub fn update(status: &mut PeerStatus, state: &'static str, now: u64, error: Option<String>)
    ensures
        final(status).state@ == state@,
        final(status).since == now,
        final(status).last_error == match error {
            Some(e) => Some(e),
            None => old(status).last_error,
        },
{
    status.state = state;
    status.since = now;
    if error.is_some() {
        status.last_error = error;
    }
}

/// Whether to serve one more client: only from this host, and only so many.
pub fn accepts(loopback: bool, clients: usize) -> (r: bool)
    ensures
        r == (loopback && clients < MAX_CLIENTS),
        r <==> loopback && clients <= 15,
{
    loopback && clients < MAX_CLIENTS
}

/// Peers begin idle, one record for each, in the order of the configuration.
pub proof fn law_peers_begin_idle(cfg: &Config, now: u64, r: Vec<PeerStatus>, i: int)
    requires
        call_ensures(statuses, (cfg, now), r),
        0 <= i < cfg.peers@.len(),
    ensures
        r@.len() == cfg.peers@.len(),
        r@[i].state@ == "Idle"@ && r@[i].since == now && r@[i].last_error is None,
{
}

/// A new state starts at its own time. An error stays until another one comes.
pub proof fn law_last_error_stays(
    status: &mut PeerStatus,
    state: &'static str,
    now: u64,
    error: Option<String>,
)
    requires
        call_ensures(update, (status, state, now, error), ()),
    ensures
        final(status).state@ == state@ && final(status).since == now,
        error is Some ==> final(status).last_error == error,
        error is None ==> final(status).last_error == old(status).last_error,
{
}

/// A client from elsewhere is never served, and never more than sixteen at a time.
pub proof fn law_clients_are_few_and_local(loopback: bool, clients: usize, r: bool)
    requires
        call_ensures(accepts, (loopback, clients), r),
    ensures
        r <==> loopback && clients + 1 <= 16,
{
}

} // verus!
