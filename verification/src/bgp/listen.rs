//! Which listeners to open, and whose an incoming connection is.
use vstd::prelude::*;

use crate::addr::IpAddr;
use crate::config::config_ok;
use crate::config::same_endpoint;
use crate::config::{Config, Peer};

verus! {

/// Whether two peers share a listener.
pub open spec fn same_listener(a: Peer, b: Peer) -> bool {
    a.local_address == b.local_address && a.interface@ == b.interface@
}

/// The first peer of each listener, among the first `k`.
pub open spec fn leaders(peers: Seq<Peer>, k: nat) -> Seq<usize>
    decreases k,
{
    if k == 0 {
        Seq::empty()
    } else {
        let rest = leaders(peers, (k - 1) as nat);
        if exists|j: int|
            0 <= j < k - 1 && same_listener(#[trigger] peers[j], peers[k - 1]) {
            rest
        } else {
            rest.push((k - 1) as usize)
        }
    }
}

/// The peers that share the listener of `leader`, among the first `k`.
pub open spec fn members(peers: Seq<Peer>, leader: int, k: nat) -> Seq<usize>
    decreases k,
{
    if k == 0 {
        Seq::empty()
    } else {
        let rest = members(peers, leader, (k - 1) as nat);
        if same_listener(peers[k - 1], peers[leader]) {
            rest.push((k - 1) as usize)
        } else {
            rest
        }
    }
}

/// A listener: the peer whose local address and interface it has, and every peer
/// that shares them.
pub struct Listener {
    pub leader: usize,
    pub peers: Vec<usize>,
}

/// The listener of a leader.
pub open spec fn is_listener(peers: Seq<Peer>, leader: usize, l: Listener) -> bool {
    l.leader == leader && l.peers@ == members(peers, leader as int, peers.len())
}

fn shares(a: &Peer, b: &Peer) -> (r: bool)
    ensures
        r == same_listener(*a, *b),
{
    a.local_address == b.local_address && a.interface == b.interface
}

fn collect(cfg: &Config, leader: usize) -> (r: Vec<usize>)
    requires
        leader < cfg.peers@.len(),
    ensures
        r@ == members(cfg.peers@, leader as int, cfg.peers@.len()),
{
    let mut r: Vec<usize> = Vec::new();
    let mut i: usize = 0;
    while i < cfg.peers.len()
        invariant
            i <= cfg.peers@.len(),
            leader < cfg.peers@.len(),
            r@ == members(cfg.peers@, leader as int, i as nat),
        decreases cfg.peers@.len() - i,
    {
        if shares(&cfg.peers[i], &cfg.peers[leader]) {
            r.push(i);
        }
        i += 1;
    }
    r
}

/// One listener for each local address and interface that some peer uses.
pub fn listeners(cfg: &Config) -> (r: Vec<Listener>)
    ensures
        r@.len() == leaders(cfg.peers@, cfg.peers@.len()).len(),
        forall|i: int|
            0 <= i < r@.len() ==> is_listener(
                cfg.peers@,
                leaders(cfg.peers@, cfg.peers@.len())[i],
                #[trigger] r@[i],
            ),
{
    let mut r: Vec<Listener> = Vec::new();
    let mut i: usize = 0;
    while i < cfg.peers.len()
        invariant
            i <= cfg.peers@.len(),
            r@.len() == leaders(cfg.peers@, i as nat).len(),
            forall|j: int|
                0 <= j < r@.len() ==> is_listener(
                    cfg.peers@,
                    leaders(cfg.peers@, i as nat)[j],
                    #[trigger] r@[j],
                ),
        decreases cfg.peers@.len() - i,
    {
        let mut first = true;
        let mut k: usize = 0;
        while k < i
            invariant
                k <= i < cfg.peers@.len(),
                first == !exists|j: int|
                    0 <= j < k && same_listener(#[trigger] cfg.peers@[j], cfg.peers@[i as int]),
            decreases i - k,
        {
            if shares(&cfg.peers[k], &cfg.peers[i]) {
                first = false;
            }
            k += 1;
        }
        if first {
            let peers = collect(cfg, i);
            r.push(Listener { leader: i, peers });
        }
        i += 1;
    }
    r
}

/// Whether the peer at a place among some has this address, and no later one does.
pub open spec fn owns(peers: Seq<Peer>, some: Seq<usize>, at: int, remote: IpAddr) -> bool {
    &&& 0 <= at < some.len()
    &&& peers[some[at] as int].address == remote
    &&& forall|j: int| at < j < some.len() ==> peers[(#[trigger] some[j]) as int].address != remote
}

/// Whether no peer among some has this address.
pub open spec fn strange(peers: Seq<Peer>, some: Seq<usize>, remote: IpAddr) -> bool {
    forall|j: int| 0 <= j < some.len() ==> peers[(#[trigger] some[j]) as int].address != remote
}

/// Whose an incoming connection is. Nobody's is closed.
pub fn dispatch(cfg: &Config, some: &Vec<usize>, remote: IpAddr) -> (r: Option<usize>)
    requires
        forall|j: int| 0 <= j < some@.len() ==> #[trigger] some@[j] < cfg.peers@.len(),
    ensures
        match r {
            Some(i) => exists|at: int|
                owns(cfg.peers@, some@, at, remote) && #[trigger] some@[at] == i,
            None => forall|j: int|
                0 <= j < some@.len() ==> cfg.peers@[(#[trigger] some@[j]) as int].address != remote,
        },
        r is None <==> strange(cfg.peers@, some@, remote),
{
    let mut k: usize = some.len();
    while k > 0
        invariant
            k <= some@.len(),
            forall|j: int| 0 <= j < some@.len() ==> #[trigger] some@[j] < cfg.peers@.len(),
            forall|j: int|
                k <= j < some@.len() ==> cfg.peers@[(#[trigger] some@[j]) as int].address != remote,
        decreases k,
    {
        k -= 1;
        let i: usize = some[k];
        if cfg.peers[i].address == remote {
            assert(owns(cfg.peers@, some@, k as int, remote));
            return Some(i);
        }
    }
    None
}

proof fn lemma_members(peers: Seq<Peer>, leader: int, k: nat)
    requires
        k <= peers.len() <= usize::MAX,
    ensures
        forall|j: int|
            0 <= j < members(peers, leader, k).len() ==> (#[trigger] members(
                peers,
                leader,
                k,
            )[j]) < k && same_listener(peers[members(peers, leader, k)[j] as int], peers[leader]),
        forall|i: int|
            0 <= i < k && same_listener(#[trigger] peers[i], peers[leader]) ==> members(
                peers,
                leader,
                k,
            ).contains(i as usize),
    decreases k,
{
    if k > 0 {
        lemma_members(peers, leader, (k - 1) as nat);
        let rest = members(peers, leader, (k - 1) as nat);
        let all = members(peers, leader, k);
        assert forall|i: int|
            0 <= i < k && same_listener(#[trigger] peers[i], peers[leader]) implies all.contains(
            i as usize,
        ) by {
            if i < k - 1 {
                let j = choose|j: int| 0 <= j < rest.len() && rest[j] == i as usize;
                assert(all[j] == i as usize);
            } else {
                assert(all[all.len() - 1] == i as usize);
            }
        }
    }
}

/// Every peer is in the listener of its own address and interface, and of no other.
pub proof fn law_every_peer_has_one_listener(peers: Seq<Peer>, leader: int, i: int)
    requires
        0 <= leader < peers.len() <= usize::MAX,
        0 <= i < peers.len(),
    ensures
        members(peers, leader, peers.len()).contains(i as usize) <==> same_listener(
            peers[i],
            peers[leader],
        ),
        exists|j: int|
            0 <= j < leaders(peers, peers.len()).len() && same_listener(
                peers[i],
                peers[#[trigger] leaders(peers, peers.len())[j] as int],
            ),
{
    lemma_members(peers, leader, peers.len());
    lemma_leaders(peers, peers.len(), i);
}

proof fn lemma_leaders(peers: Seq<Peer>, k: nat, i: int)
    requires
        0 <= i < k <= peers.len() <= usize::MAX,
    ensures
        exists|j: int|
            0 <= j < leaders(peers, k).len() && same_listener(
                peers[i],
                peers[#[trigger] leaders(peers, k)[j] as int],
            ),
    decreases k,
{
    let rest = leaders(peers, (k - 1) as nat);
    let all = leaders(peers, k);
    if i < k - 1 {
        lemma_leaders(peers, (k - 1) as nat, i);
        let j = choose|j: int|
            0 <= j < rest.len() && same_listener(peers[i], peers[#[trigger] rest[j] as int]);
        assert(all[j] == rest[j]);
    } else if exists|j: int| 0 <= j < k - 1 && same_listener(#[trigger] peers[j], peers[k - 1]) {
        let j = choose|j: int| 0 <= j < k - 1 && same_listener(#[trigger] peers[j], peers[k - 1]);
        lemma_leaders(peers, (k - 1) as nat, j);
        let m = choose|m: int|
            0 <= m < rest.len() && same_listener(peers[j], peers[#[trigger] rest[m] as int]);
        assert(all[m] == rest[m]);
    } else {
        assert(all[all.len() - 1] == (k - 1) as usize);
    }
}

/// In a valid configuration a connection from a peer's address, to the listener
/// of that peer, is that peer's.
pub proof fn law_connection_reaches_its_peer(c: Config, leader: int, i: int, at: int)
    requires
        config_ok(c),
        0 <= leader < c.peers@.len(),
        0 <= i < c.peers@.len(),
        same_listener(c.peers@[i], c.peers@[leader]),
        owns(
            c.peers@,
            members(c.peers@, leader, c.peers@.len()),
            at,
            c.peers@[i].address,
        ),
    ensures
        members(c.peers@, leader, c.peers@.len())[at] == i,
{
    assert(c.peers.len() == c.peers@.len());
    lemma_members(c.peers@, leader, c.peers@.len());
    let k = members(c.peers@, leader, c.peers@.len())[at] as int;
    if k < i {
        assert(same_endpoint(c.peers@[k], c.peers@[i]));
    } else if i < k {
        assert(same_endpoint(c.peers@[i], c.peers@[k]));
    }
}

/// Each listener stands for one local address and interface: all peers with these are
/// its own, in order, and no other; and no two listeners stand for the same.
pub proof fn law_listeners_part_the_peers(peers: Seq<Peer>, a: int, b: int, i: int)
    requires
        peers.len() <= usize::MAX,
        0 <= a < b < leaders(peers, peers.len()).len(),
        0 <= i < peers.len(),
    ensures
        ({
            let (x, y) = (leaders(peers, peers.len())[a], leaders(peers, peers.len())[b]);
            &&& x < y < peers.len()
            &&& peers[x as int].local_address != peers[y as int].local_address
                || peers[x as int].interface@ != peers[y as int].interface@
            &&& members(peers, x as int, peers.len()).contains(i as usize) <==> (
            peers[i].local_address == peers[x as int].local_address && peers[i].interface@
                == peers[x as int].interface@)
            &&& members(peers, x as int, peers.len()).contains(x)
        }),
{
    lemma_leaders_differ(peers, peers.len(), a, b);
    let x = leaders(peers, peers.len())[a];
    lemma_members(peers, x as int, peers.len());
    let m = members(peers, x as int, peers.len());
    if m.contains(i as usize) {
        let j = choose|j: int| 0 <= j < m.len() && m[j] == i as usize;
        assert(same_listener(peers[m[j] as int], peers[x as int]));
    }
    assert(same_listener(peers[x as int], peers[x as int]));
    assert(x as int as usize == x);
}

proof fn lemma_leaders_differ(peers: Seq<Peer>, k: nat, a: int, b: int)
    requires
        k <= peers.len() <= usize::MAX,
        0 <= a < b < leaders(peers, k).len(),
    ensures
        ({
            let (x, y) = (leaders(peers, k)[a], leaders(peers, k)[b]);
            x < y < k && !same_listener(peers[x as int], peers[y as int])
        }),
    decreases k,
{
    let rest = leaders(peers, (k - 1) as nat);
    let all = leaders(peers, k);
    if b < rest.len() {
        lemma_leaders_differ(peers, (k - 1) as nat, a, b);
        assert(all[a] == rest[a] && all[b] == rest[b]);
    } else {
        lemma_leaders_bound(peers, (k - 1) as nat, a);
        assert(all[a] == rest[a]);
        assert(all[b] == (k - 1) as usize);
    }
}

proof fn lemma_leaders_bound(peers: Seq<Peer>, k: nat, a: int)
    requires
        k <= usize::MAX,
        0 <= a < leaders(peers, k).len(),
    ensures
        leaders(peers, k)[a] < k,
    decreases k,
{
    let rest = leaders(peers, (k - 1) as nat);
    if a < rest.len() {
        lemma_leaders_bound(peers, (k - 1) as nat, a);
        assert(leaders(peers, k)[a] == rest[a]);
    }
}

/// A connection is handed to the last of the listener's peers that has its address.
pub proof fn law_last_peer_of_an_address_owns_it(
    peers: Seq<Peer>,
    some: Seq<usize>,
    a: int,
    b: int,
    remote: IpAddr,
)
    requires
        0 <= a < b < some.len(),
        peers[some[b] as int].address == remote,
    ensures
        !owns(peers, some, a, remote),
        b == some.len() - 1 ==> owns(peers, some, b, remote),
{
}

/// A connection goes to the last peer of the listener that has its address, and to nobody
/// exactly where none has.
pub proof fn law_connection_goes_to_its_peer(
    cfg: &Config,
    some: &Vec<usize>,
    remote: IpAddr,
    r: Option<usize>,
    j: int,
)
    requires
        call_ensures(dispatch, (cfg, some, remote), r),
        0 <= j < some@.len(),
        cfg.peers@[some@[j] as int].address == remote,
        forall|k: int|
            j < k < some@.len() ==> cfg.peers@[(#[trigger] some@[k]) as int].address != remote,
    ensures
        r == Some(some@[j]),
{
    assert(!strange(cfg.peers@, some@, remote));
    if let Some(i) = r {
        let at = choose|at: int|
            owns(cfg.peers@, some@, at, remote) && #[trigger] some@[at] == i;
        assert(cfg.peers@[some@[at] as int].address == remote);
        assert(at <= j);
        assert(at >= j);
    }
}

/// A connection from elsewhere is nobody's.
pub proof fn law_stranger_is_nobodys(
    cfg: &Config,
    some: &Vec<usize>,
    remote: IpAddr,
    r: Option<usize>,
)
    requires
        call_ensures(dispatch, (cfg, some, remote), r),
    ensures
        r matches Some(i) ==> cfg.peers@[i as int].address == remote && some@.contains(i),
        (forall|k: int|
            0 <= k < some@.len() ==> cfg.peers@[(#[trigger] some@[k]) as int].address != remote)
            ==> r is None,
{
}

proof fn lemma_members_go_up(peers: Seq<Peer>, leader: int, k: nat, a: int, b: int)
    requires
        k <= peers.len() <= usize::MAX,
        0 <= a < b < members(peers, leader, k).len(),
    ensures
        members(peers, leader, k)[a] < members(peers, leader, k)[b] < k,
    decreases k,
{
    let rest = members(peers, leader, (k - 1) as nat);
    let all = members(peers, leader, k);
    lemma_members(peers, leader, (k - 1) as nat);
    if b < rest.len() {
        lemma_members_go_up(peers, leader, (k - 1) as nat, a, b);
        assert(all[a] == rest[a] && all[b] == rest[b]);
    } else {
        assert(all[a] == rest[a]);
    }
}

/// Peers share a listener where they have the same local address on the same interface:
/// one listener is made for each such pair, and has all of its peers, in order.
pub proof fn law_listeners_are_made(cfg: &Config, r: Vec<Listener>, i: int, l: int, a: int, b: int)
    requires
        call_ensures(listeners, (cfg,), r),
        0 <= i < cfg.peers@.len(),
        0 <= l < r@.len(),
    ensures
        r@[l].leader < cfg.peers@.len(),
        r@[l].peers@.contains(i as usize) <==> (cfg.peers@[i].local_address
            == cfg.peers@[r@[l].leader as int].local_address && cfg.peers@[i].interface@
            == cfg.peers@[r@[l].leader as int].interface@),
        0 <= a < b < r@[l].peers@.len() ==> r@[l].peers@[a] < r@[l].peers@[b],
        exists|k: int|
            0 <= k < r@.len() && cfg.peers@[(#[trigger] r@[k]).leader as int].local_address
                == cfg.peers@[i].local_address && cfg.peers@[r@[k].leader as int].interface@
                == cfg.peers@[i].interface@,
{
    let peers = cfg.peers@;
    assert(cfg.peers.len() == peers.len());
    let x = leaders(peers, peers.len())[l];
    assert(is_listener(peers, x, r@[l]));
    lemma_leaders_bound(peers, peers.len(), l);
    law_every_peer_has_one_listener(peers, x as int, i);
    if 0 <= a < b < r@[l].peers@.len() {
        lemma_members_go_up(peers, x as int, peers.len(), a, b);
    }
    let k = choose|k: int|
        0 <= k < leaders(peers, peers.len()).len() && same_listener(
            peers[i],
            peers[#[trigger] leaders(peers, peers.len())[k] as int],
        );
    assert(is_listener(peers, leaders(peers, peers.len())[k], r@[k]));
}

} // verus!
