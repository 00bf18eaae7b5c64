//! Keeping a peer up to date.
use vstd::prelude::*;

use crate::bgp::plan::enabled;
use crate::bgp::plan::law_plan_reaches_what_is_wanted;
use crate::bgp::plan::lemma_run_fits;
use crate::bgp::plan::wanted;
use crate::bgp::plan::Plan;
use crate::clock::{later, passed};
use crate::config::{Config, Peer};
use crate::net::{IpNet, Prefixes};
use crate::netlink::export::exported;
use crate::netlink::export::in_use;
use crate::netlink::export::law_exports_are_permitted_kernel_prefixes;
use crate::netlink::export::permitted;
use crate::netlink::export::Exports;
use crate::wire::encode::batch_ok;
use crate::wire::encode::update;
use crate::wire::encode::update_body;
use crate::wire::frame::end_of_rib_body;
use crate::wire::frame::message;
use crate::wire::frame::{end_of_rib, frame, KEEPALIVE, UPDATE};
use crate::wire::open::Negotiated;

verus! {

/// How long new exports are collected before the plan is made anew.
pub const COALESCE_MS: u64 = 100;

/// How often everything is announced again on request.
pub const REFRESH_MS: u64 = 1000;

/// How far one round has come.
#[derive(Clone, Copy, Debug, PartialEq, Eq, Structural)]
pub enum Phase {
    /// New exports count next, if there are any.
    Exports,
    /// The keepalive timer counts next.
    Timer,
    /// The plan counts next.
    Batch,
    /// Everything was sent.
    Idle,
}

/// What has to be done next.
#[derive(Clone, Copy, Debug, PartialEq, Eq, Structural)]
pub enum Due {
    Retarget,
    Keepalive,
    Batch,
    EndOfRib,
    Wait,
}

/// What to do next.
pub enum Action {
    /// Fetch the latest exports and call [`Transmit::retarget`].
    Retarget,
    /// Send this and call [`Transmit::kept_alive`].
    Keepalive(Vec<u8>),
    /// Send this.
    Update(Vec<u8>),
    /// Send these, one after the other.
    EndOfRib(Vec<Vec<u8>>),
    /// Wait for new exports, a refresh request or this time.
    Wait(Option<u64>),
}

/// What is exported under a name.
pub open spec fn desired_of(exports: Map<Seq<char>, Set<IpNet>>, acl: Seq<char>) -> Set<IpNet> {
    if exports.dom().contains(acl) {
        exports[acl]
    } else {
        Set::empty()
    }
}

/// The prefixes to tell a peer of, out of all exports.
pub fn desired(exports: &Exports, acl: &String) -> (r: Prefixes)
    requires
        exports.wf(),
    ensures
        r.wf(),
        r@ == desired_of(exports@, acl@),
{
    match exports.get(acl) {
        Some(p) => p.copy(),
        None => Prefixes::new(),
    }
}

/// The time between keepalives: a third of the hold time, and at least a second.
pub open spec fn spec_keepalive_ms(hold: u16) -> u64 {
    if hold < 3 {
        1000
    } else {
        (hold / 3 * 1000) as u64
    }
}

#[verifier::when_used_as_spec(spec_keepalive_ms)]
pub fn keepalive_ms(hold: u16) -> (r: u64)
    ensures
        r == keepalive_ms(hold),
{
    if hold < 3 {
        1000
    } else {
        (hold / 3) as u64 * 1000
    }
}

/// What a peer was told, what it should know, and what is left to send.
pub struct Transmit {
    pub n: Negotiated,
    pub advertised: Prefixes,
    pub target: Prefixes,
    pub plan: Plan,
    pub next_keepalive: u64,
    /// Whether the end of the initial announcements, or of a refresh, is still to
    /// be marked.
    pub eor: bool,
    pub last_replan: u64,
    pub last_refresh: Option<u64>,
    pub phase: Phase,
}

/// A next hop is known for every family that is exchanged.
pub open spec fn next_hops_known(n: Negotiated, p: Peer) -> bool {
    (n.ipv4 ==> p.nh4() is Some) && (n.ipv6 ==> p.nh6() is Some)
}

/// The marks for the end of the announcements, one for each family.
pub open spec fn marks(n: Negotiated) -> Seq<Seq<u8>> {
    let v4 = message(UPDATE, end_of_rib_body(false));
    let v6 = message(UPDATE, end_of_rib_body(true));
    if n.ipv4 && n.ipv6 {
        seq![v4, v6]
    } else if n.ipv4 {
        seq![v4]
    } else if n.ipv6 {
        seq![v6]
    } else {
        Seq::empty()
    }
}

/// What a list of packets holds.
pub open spec fn packets(v: Seq<Vec<u8>>) -> Seq<Seq<u8>> {
    Seq::new(v.len(), |i: int| v[i]@)
}

impl Transmit {
    /// Carrying out the plan leaves the peer with what it should know, and it
    /// knows of no family that is not exchanged.
    pub open spec fn wf(self) -> bool {
        &&& self.advertised.wf()
        &&& self.target.wf()
        &&& self.plan.wf()
        &&& forall|p: IpNet| #[trigger] self.advertised@.contains(p) ==> enabled(self.n, p)
        &&& self.plan.outcome(self.advertised@) == wanted(self.target@, self.n)
        &&& self.phase == Phase::Idle ==> self.plan.is_empty()
    }

    /// What has to be done next, where `changed` says whether there are new exports.
    pub open spec fn due(self, now: u64, changed: bool) -> Due {
        if self.phase == Phase::Exports && changed && passed(now, self.last_replan, COALESCE_MS) {
            Due::Retarget
        } else if (self.phase == Phase::Exports || self.phase == Phase::Timer) && self.n.hold != 0
            && now >= self.next_keepalive {
            Due::Keepalive
        } else if !self.plan.is_empty() {
            Due::Batch
        } else if self.phase != Phase::Idle && self.eor {
            Due::EndOfRib
        } else {
            Due::Wait
        }
    }

    /// Start with a peer that knows nothing.
    pub fn new(n: Negotiated, exports: &Exports, acl: &String, now: u64) -> (r: Transmit)
        requires
            exports.wf(),
        ensures
            r.wf(),
            r.n == n,
            r.advertised@ == Set::<IpNet>::empty(),
            r.target@ == desired_of(exports@, acl@),
            r.plan.is_for(r.advertised@, r.target@, n, false),
            r.next_keepalive == later(now, keepalive_ms(n.hold)),
            r.eor,
            r.last_replan == now,
            r.last_refresh is None,
            r.phase == Phase::Exports,
    {
        let advertised = Prefixes::new();
        let target = desired(exports, acl);
        let plan = Plan::new(&advertised, &target, &n, false);
        proof {
            law_plan_reaches_what_is_wanted(plan, advertised@, target@, n, false);
        }
        Transmit {
            n,
            advertised,
            target,
            plan,
            next_keepalive: later(now, keepalive_ms(n.hold)),
            eor: true,
            last_replan: now,
            last_refresh: None,
            phase: Phase::Exports,
        }
    }

    /// Take over new exports: plan against what was actually sent, never against
    /// an obsolete queue.
    pub fn retarget(&mut self, now: u64, exports: &Exports, acl: &String)
        requires
            old(self).wf(),
            old(self).phase != Phase::Idle,
            exports.wf(),
        ensures
            final(self).wf(),
            final(self).n == old(self).n,
            final(self).advertised@ == old(self).advertised@,
            final(self).target@ == desired_of(exports@, acl@),
            final(self).plan.is_for(
                old(self).advertised@,
                final(self).target@,
                old(self).n,
                false,
            ),
            final(self).next_keepalive == old(self).next_keepalive,
            final(self).eor == old(self).eor,
            final(self).last_replan == now,
            final(self).last_refresh == old(self).last_refresh,
            final(self).phase == old(self).phase,
    {
        self.target = desired(exports, acl);
        self.plan = Plan::new(&self.advertised, &self.target, &self.n, false);
        self.last_replan = now;
        proof {
            law_plan_reaches_what_is_wanted(
                self.plan,
                self.advertised@,
                self.target@,
                self.n,
                false,
            );
        }
    }

    /// Whether a refresh request counts now.
    pub open spec fn refresh_allowed(self, now: u64) -> bool {
        match self.last_refresh {
            Some(last) => passed(now, last, REFRESH_MS),
            None => true,
        }
    }

    /// The peer asked for everything again. Requests that come too soon are ignored.
    pub fn refreshed(&mut self, now: u64)
        requires
            old(self).wf(),
            old(self).phase != Phase::Idle,
        ensures
            final(self).wf(),
            !old(self).refresh_allowed(now) ==> *final(self) == *old(self),
            old(self).refresh_allowed(now) ==> {
                &&& final(self).plan.is_for(
                    old(self).advertised@,
                    old(self).target@,
                    old(self).n,
                    true,
                )
                &&& final(self).eor
                &&& final(self).last_refresh == Some(now)
                &&& final(self).n == old(self).n
                &&& final(self).advertised@ == old(self).advertised@
                &&& final(self).target@ == old(self).target@
                &&& final(self).next_keepalive == old(self).next_keepalive
                &&& final(self).last_replan == old(self).last_replan
                &&& final(self).phase == old(self).phase
            },
    {
        let allowed = match self.last_refresh {
            Some(last) => passed(now, last, REFRESH_MS),
            None => true,
        };
        if allowed {
            self.plan = Plan::new(&self.advertised, &self.target, &self.n, true);
            self.last_refresh = Some(now);
            self.eor = true;
            proof {
                law_plan_reaches_what_is_wanted(
                    self.plan,
                    self.advertised@,
                    self.target@,
                    self.n,
                    true,
                );
            }
        }
    }

    /// A keepalive was sent.
    pub fn kept_alive(&mut self, now: u64)
        requires
            old(self).wf(),
        ensures
            final(self).wf(),
            *final(self) == (Transmit {
                next_keepalive: later(now, keepalive_ms(old(self).n.hold)),
                ..*old(self)
            }),
    {
        self.next_keepalive = later(now, keepalive_ms(self.n.hold));
    }

    /// Decide what to do next. What is handed out to be sent counts as sent: where
    /// sending fails the session ends.
    pub fn step(&mut self, now: u64, changed: bool, cfg: &Config, p: &Peer) -> (r: Action)
        requires
            old(self).wf(),
            next_hops_known(old(self).n, *p),
        ensures
            final(self).wf(),
            final(self).n == old(self).n,
            final(self).target@ == old(self).target@,
            final(self).next_keepalive == old(self).next_keepalive,
            final(self).last_replan == old(self).last_replan,
            final(self).last_refresh == old(self).last_refresh,
            old(self).due(now, changed) != Due::Batch ==> final(self).advertised@ == old(
                self).advertised@ && final(self).plan == old(self).plan,
            old(self).due(now, changed) != Due::EndOfRib ==> final(self).eor == old(self).eor,
            match old(self).due(now, changed) {
                Due::Retarget => r is Retarget && final(self).phase == Phase::Timer,
                Due::Keepalive => {
                    &&& r matches Action::Keepalive(b) && b@ == message(KEEPALIVE, Seq::empty())
                    &&& final(self).phase == Phase::Batch
                },
                Due::Batch => {
                    let batch = old(self).plan.batch();
                    let withdraw = old(self).plan.withdrawals@.len() > 0;
                    &&& batch_ok(batch)
                    &&& r matches Action::Update(b) && b@ == message(
                        UPDATE,
                        update_body(*cfg, *p, old(self).n, batch, withdraw),
                    )
                    &&& final(self).phase == Phase::Exports
                    &&& final(self).plan.pending() < old(self).plan.pending()
                    &&& if withdraw {
                        &&& final(self).advertised@ == old(self).advertised@.difference(
                            batch.to_set(),
                        )
                        &&& final(self).plan.withdrawals@ == old(self).plan.withdrawals@.skip(
                            batch.len() as int,
                        )
                        &&& final(self).plan.additions@ == old(self).plan.additions@
                    } else {
                        &&& final(self).advertised@ == old(self).advertised@.union(batch.to_set())
                        &&& final(self).plan.additions@ == old(self).plan.additions@.skip(
                            batch.len() as int,
                        )
                        &&& final(self).plan.withdrawals@ == old(self).plan.withdrawals@
                    }
                },
                Due::EndOfRib => {
                    &&& r matches Action::EndOfRib(v) && packets(v@) == marks(old(self).n)
                    &&& final(self).phase == Phase::Idle
                    &&& !final(self).eor
                },
                Due::Wait => {
                    &&& r == Action::Wait(
                        if old(self).n.hold != 0 {
                            Some(old(self).next_keepalive)
                        } else {
                            None
                        },
                    )
                    &&& final(self).phase == Phase::Exports
                },
            },
    {
        if self.phase == Phase::Exports && changed && passed(now, self.last_replan, COALESCE_MS) {
            self.phase = Phase::Timer;
            return Action::Retarget;
        }
        if (self.phase == Phase::Exports || self.phase == Phase::Timer) && self.n.hold != 0 && now
            >= self.next_keepalive {
            self.phase = Phase::Batch;
            let empty: Vec<u8> = Vec::new();
            let packet = frame(KEEPALIVE, empty.as_slice());
            assert(empty@ =~= Seq::<u8>::empty());
            return Action::Keepalive(packet);
        }
        let ghost known = self.advertised@;
        let ghost plan = self.plan;
        match self.plan.next() {
            Some((withdraw, batch)) => {
                proof {
                    lemma_batch_is_enabled(*old(self), batch@, withdraw);
                }
                let packet = update(cfg, p, &self.n, batch.as_slice(), withdraw);
                let set = Prefixes { items: batch };
                if withdraw {
                    self.advertised.remove_all(&set);
                } else {
                    self.advertised.insert_all(&set);
                }
                self.phase = Phase::Exports;
                proof {
                    lemma_run_fits(plan.withdrawals@, 0);
                    lemma_run_fits(plan.additions@, 0);
                    lemma_batch_keeps_outcome(plan, self.plan, known, set.items@, withdraw);
                    assert(self.plan.outcome(self.advertised@) == wanted(self.target@, self.n));
                }
                return Action::Update(packet);
            },
            None => {},
        }
        if self.phase != Phase::Idle && self.eor {
            let mut list: Vec<Vec<u8>> = Vec::new();
            if self.n.ipv4 {
                list.push(end_of_rib(false));
            }
            if self.n.ipv6 {
                list.push(end_of_rib(true));
            }
            self.eor = false;
            self.phase = Phase::Idle;
            assert(packets(list@) =~= marks(self.n));
            return Action::EndOfRib(list);
        }
        self.phase = Phase::Exports;
        if self.n.hold != 0 {
            Action::Wait(Some(self.next_keepalive))
        } else {
            Action::Wait(None)
        }
    }
}

/// What a batch announces is of a family that is exchanged.
proof fn lemma_batch_is_enabled(t: Transmit, batch: Seq<IpNet>, withdraw: bool)
    requires
        t.wf(),
        batch_ok(batch),
        batch == t.plan.batch(),
        withdraw == (t.plan.withdrawals@.len() > 0),
    ensures
        !withdraw ==> forall|i: int| 0 <= i < batch.len() ==> enabled(t.n, #[trigger] batch[i]),
{
    if !withdraw {
        assert forall|i: int| 0 <= i < batch.len() implies enabled(t.n, #[trigger] batch[i]) by {
            let p = batch[i];
            lemma_run_fits(t.plan.additions@, 0);
            assert(t.plan.additions@[i] == p);
            assert(t.plan.additions@.to_set().contains(p));
            assert(t.plan.outcome(t.advertised@).contains(p));
            assert(wanted(t.target@, t.n).contains(p));
        }
    }
}

/// Sending a batch brings a peer closer to the outcome of the plan without
/// changing that outcome.
proof fn lemma_batch_keeps_outcome(
    plan: Plan,
    rest: Plan,
    known: Set<IpNet>,
    batch: Seq<IpNet>,
    withdraw: bool,
)
    requires
        batch == plan.batch(),
        withdraw == (plan.withdrawals@.len() > 0),
        if withdraw {
            &&& rest.withdrawals@ == plan.withdrawals@.skip(batch.len() as int)
            &&& rest.additions@ == plan.additions@
        } else {
            &&& rest.additions@ == plan.additions@.skip(batch.len() as int)
            &&& rest.withdrawals@ == plan.withdrawals@
        },
    ensures
        rest.outcome(
            if withdraw {
                known.difference(batch.to_set())
            } else {
                known.union(batch.to_set())
            },
        ) == plan.outcome(known),
{
    let q = if withdraw {
        plan.withdrawals@
    } else {
        plan.additions@
    };
    lemma_run_fits(q, 0);
    let k = batch.len() as int;
    let tail = q.skip(k);
    assert forall|p: IpNet| q.contains(p) <==> batch.contains(p) || tail.contains(p) by {
        if q.contains(p) {
            let i = choose|i: int| 0 <= i < q.len() && q[i] == p;
            if i < k {
                assert(batch[i] == p);
            } else {
                assert(tail[i - k] == p);
            }
        }
        if batch.contains(p) {
            let i = choose|i: int| 0 <= i < batch.len() && batch[i] == p;
            assert(q[i] == p);
        }
        if tail.contains(p) {
            let i = choose|i: int| 0 <= i < tail.len() && tail[i] == p;
            assert(q[i + k] == p);
        }
    }
    let next = if withdraw {
        known.difference(batch.to_set())
    } else {
        known.union(batch.to_set())
    };
    assert(rest.outcome(next) =~= plan.outcome(known));
}

/// Announcements do not delay a keepalive: once it is due it is sent before the
/// next batch, whatever is queued.
pub proof fn law_keepalives_are_not_starved(t: Transmit, now: u64, changed: bool)
    requires
        t.phase == Phase::Exports || t.phase == Phase::Timer,
        t.n.hold != 0,
        now >= t.next_keepalive,
    ensures
        t.due(now, changed) == Due::Retarget || t.due(now, changed) == Due::Keepalive,
        (Transmit { phase: Phase::Timer, ..t }).due(now, changed) == Due::Keepalive,
{
}

/// Whenever a session waits, the peer knows exactly what it should.
pub proof fn law_waiting_peer_is_up_to_date(t: Transmit, now: u64, changed: bool)
    requires
        t.wf(),
        t.due(now, changed) == Due::Wait || t.due(now, changed) == Due::EndOfRib,
    ensures
        t.advertised@ == wanted(t.target@, t.n),
{
    assert(t.plan.outcome(t.advertised@) =~= t.advertised@);
}

/// Everything still to be announced is wanted, and everything that the peer
/// knows but should not is still to be withdrawn.
pub proof fn law_peer_knows_no_more_than_wanted(t: Transmit, p: IpNet)
    requires
        t.wf(),
    ensures
        t.plan.additions@.contains(p) ==> t.target@.contains(p) && enabled(t.n, p),
        t.advertised@.contains(p) && !t.target@.contains(p) ==> t.plan.withdrawals@.contains(p),
{
    if t.plan.additions@.contains(p) {
        assert(t.plan.outcome(t.advertised@).contains(p));
        assert(wanted(t.target@, t.n).contains(p));
    }
    if t.advertised@.contains(p) && !t.target@.contains(p) {
        assert(!wanted(t.target@, t.n).contains(p));
        assert(!t.plan.outcome(t.advertised@).contains(p));
    }
}

/// A peer that is up to date knows exactly the kernel prefixes that its ACL permits,
/// of the families that are exchanged.
pub proof fn law_peer_knows_permitted_kernel_prefixes(
    t: Transmit,
    c: Config,
    kernel: Set<IpNet>,
    acl: Seq<char>,
    now: u64,
    changed: bool,
    p: IpNet,
)
    requires
        t.wf(),
        in_use(c, acl),
        t.target@ == desired_of(exported(c, kernel), acl),
        t.due(now, changed) == Due::Wait,
    ensures
        t.advertised@.contains(p) <==> kernel.contains(p) && permitted(c, acl, p) && enabled(t.n, p),
{
    law_waiting_peer_is_up_to_date(t, now, changed);
    law_exports_are_permitted_kernel_prefixes(c, kernel, acl, p);
    assert(exported(c, kernel).dom().contains(acl));
}

/// Where nothing is exported any more, a peer that is up to date knows nothing.
pub proof fn law_clearing_exports_withdraws_everything(
    t: Transmit,
    acl: Seq<char>,
    now: u64,
    changed: bool,
)
    requires
        t.wf(),
        t.target@ == desired_of(Map::empty(), acl),
        t.due(now, changed) == Due::Wait,
    ensures
        t.advertised@ == Set::<IpNet>::empty(),
{
    law_waiting_peer_is_up_to_date(t, now, changed);
    assert(wanted(t.target@, t.n) =~= Set::<IpNet>::empty());
}

} // verus!
