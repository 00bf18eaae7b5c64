//! What peers learn, when, and on which connection: laws over the negotiated
//! fields, times and octets themselves.
use vstd::arithmetic::power2::lemma2_to64;
use vstd::prelude::*;

use crate::addr::{IpAddr, Ipv4Addr};
use crate::bgp::peer::{
    backoff_secs, pause_secs, Backoff, PeerAction, PeerEvent, PeerLoop, PeerStage,
};
use crate::bgp::plan::{
    enabled, first_batch, law_batches_are_full, law_plan_reaches_what_is_wanted, lemma_run_fits,
    wanted, Plan,
};
use crate::bgp::select::preferred;
use crate::bgp::transmit::{
    desired, desired_of, keepalive_ms, law_peer_knows_permitted_kernel_prefixes, marks, packets, Action,
    Due, Phase, Transmit,
};
use crate::bytes::lemma_be_len;
use crate::config::{Config, Peer};
use crate::net::{proper, IpNet, Prefixes};
use crate::netlink::export::{exported, permitted, Exports};
use crate::wire::encode::update_body;
use crate::wire::frame::message;
use crate::wire::open::Negotiated;

verus! {

/// A plan withdraws what the peer knows and should not, and announces what it should
/// know and does not: of IPv4 prefixes where IPv4 is exchanged, of IPv6 prefixes where
/// IPv6 is, each whether or not the other is. A refresh announces the rest again, and
/// withdraws nothing on its own account.
pub proof fn law_plan_follows_each_family(
    plan: Plan,
    advertised: Set<IpNet>,
    desired: Set<IpNet>,
    n: Negotiated,
    refresh: bool,
    p: IpNet,
)
    requires
        plan.is_for(advertised, desired, n, refresh),
    ensures
        p.addr is V4 ==> {
            &&& plan.additions@.contains(p) <==> desired.contains(p) && n.ipv4 && (refresh
                || !advertised.contains(p))
            &&& plan.withdrawals@.contains(p) <==> advertised.contains(p) && !(desired.contains(p)
                && n.ipv4)
            &&& plan.outcome(advertised).contains(p) <==> desired.contains(p) && n.ipv4
        },
        p.addr is V6 ==> {
            &&& plan.additions@.contains(p) <==> desired.contains(p) && n.ipv6 && (refresh
                || !advertised.contains(p))
            &&& plan.withdrawals@.contains(p) <==> advertised.contains(p) && !(desired.contains(p)
                && n.ipv6)
            &&& plan.outcome(advertised).contains(p) <==> desired.contains(p) && n.ipv6
        },
        plan.withdrawals@.contains(p) ==> !plan.additions@.contains(p),
{
    law_plan_reaches_what_is_wanted(plan, advertised, desired, n, refresh);
    assert(plan.outcome(advertised).contains(p) == wanted(desired, n).contains(p));
}

/// What is carried out is what is planned: a peer knows a prefix afterwards exactly
/// where it knew it and nothing withdrew it, or where it was announced.
pub proof fn law_outcome_is_what_is_sent(plan: Plan, known: Set<IpNet>, p: IpNet)
    ensures
        plan.outcome(known).contains(p) <==> plan.additions@.contains(p) || (known.contains(p)
            && !plan.withdrawals@.contains(p)),
{
}

/// A batch is the start of its queue: the longest of one family, and no more than two
/// hundred prefixes.
pub proof fn law_batch_is_the_start_of_its_queue(q: Seq<IpNet>, i: int)
    requires
        proper(q),
        q.len() > 0,
    ensures
        1 <= first_batch(q).len() <= q.len(),
        first_batch(q).len() <= 200,
        0 <= i < first_batch(q).len() ==> first_batch(q)[i] == q[i] && (q[i].addr is V4) == (
        q[0].addr is V4),
        first_batch(q).len() < 200 && first_batch(q).len() < q.len() ==> (q[first_batch(
            q,
        ).len() as int].addr is V4) != (q[0].addr is V4),
{
    lemma_run_fits(q, 0);
    law_batches_are_full(q);
}

/// A plan withdraws before it announces.
pub proof fn law_withdrawals_come_first(plan: Plan, i: int)
    requires
        plan.wf(),
        0 <= i < plan.batch().len(),
    ensures
        plan.withdrawals@.len() > 0 ==> plan.withdrawals@.contains(plan.batch()[i]),
        plan.withdrawals@.len() == 0 ==> plan.additions@.contains(plan.batch()[i]),
        plan.is_empty() <==> forall|p: IpNet|
            !plan.withdrawals@.contains(p) && !plan.additions@.contains(p),
{
    lemma_run_fits(plan.withdrawals@, 0);
    lemma_run_fits(plan.additions@, 0);
    if plan.withdrawals@.len() > 0 {
        assert(plan.withdrawals@[i] == plan.batch()[i]);
    } else {
        assert(plan.additions@[i] == plan.batch()[i]);
    }
}

/// A peer that is up to date knows a kernel prefix that its ACL permits exactly where
/// the prefix is IPv4 and IPv4 is exchanged, or IPv6 and IPv6 is; and it knows nothing
/// else.
pub proof fn law_up_to_date_peer_knows_its_families(
    t: Transmit,
    c: Config,
    kernel: Set<IpNet>,
    acl: Seq<char>,
    now: u64,
    changed: bool,
    p: IpNet,
)
    requires
        t.wf(),
        exists|i: int| 0 <= i < c.peers@.len() && (#[trigger] c.peers@[i]).export_acl@ == acl,
        t.target@ == desired_of(exported(c, kernel), acl),
        t.due(now, changed) == Due::Wait,
    ensures
        p.addr is V4 ==> (t.advertised@.contains(p) <==> kernel.contains(p) && permitted(c, acl, p)
            && t.n.ipv4),
        p.addr is V6 ==> (t.advertised@.contains(p) <==> kernel.contains(p) && permitted(c, acl, p)
            && t.n.ipv6),
{
    law_peer_knows_permitted_kernel_prefixes(t, c, kernel, acl, now, changed, p);
}

/// What a session has to do next. New exports count at most every tenth of a second, a
/// keepalive counts when its time has come and a hold time is kept, then comes what is
/// queued, then the marks that are owed; a session waits only where nothing is left.
pub proof fn law_what_is_due(t: Transmit, now: u64, changed: bool)
    ensures
        ({
            let exports = t.phase == Phase::Exports && changed && now >= t.last_replan + 100;
            let keepalive = (t.phase == Phase::Exports || t.phase == Phase::Timer) && t.n.hold > 0
                && now >= t.next_keepalive;
            let queued = t.plan.withdrawals@.len() > 0 || t.plan.additions@.len() > 0;
            let owed = t.eor && t.phase != Phase::Idle;
            let due = t.due(now, changed);
            &&& due == Due::Retarget <==> exports
            &&& due == Due::Keepalive <==> keepalive && !exports
            &&& due == Due::Batch <==> queued && !keepalive && !exports
            &&& due == Due::EndOfRib <==> owed && !queued && !keepalive && !exports
            &&& due == Due::Wait <==> !owed && !queued && !keepalive && !exports
        }),
{
}

/// A peer gets everything again at most once a second, and the first time at once.
pub proof fn law_refreshes_are_limited(t: Transmit, now: u64)
    ensures
        t.last_refresh is None ==> t.refresh_allowed(now),
        t.last_refresh matches Some(last) ==> (t.refresh_allowed(now) <==> now >= last + 1000),
{
}

/// Keepalives are sent every third of the hold time, in whole seconds, and never more
/// than once a second.
pub proof fn law_keepalives_come_in_thirds(hold: u16)
    ensures
        keepalive_ms(hold) % 1000 == 0,
        keepalive_ms(hold) >= 1000,
        hold >= 3 ==> 3 * keepalive_ms(hold) <= hold * 1000 < 3 * keepalive_ms(hold) + 3000,
        hold < 3 ==> keepalive_ms(hold) == 1000,
{
}

/// The end of the announcements is marked once for each family that is exchanged, IPv4
/// first: by an empty UPDATE, and by one that withdraws nothing of IPv6.
pub proof fn law_marks_name_each_family(n: Negotiated)
    ensures
        marks(n).len() == (if n.ipv4 {
            1int
        } else {
            0
        }) + (if n.ipv6 {
            1int
        } else {
            0
        }),
        n.ipv4 ==> marks(n)[0].skip(18) == seq![2u8, 0, 0, 0, 0],
        n.ipv6 ==> marks(n).last().skip(18) == seq![2u8, 0, 0, 0, 6, 0x80, 15, 3, 0, 2, 1],
{
    lemma_be_len(23, 2);
    lemma_be_len(29, 2);
    if n.ipv4 {
        assert(marks(n)[0].skip(18) =~= seq![2u8, 0, 0, 0, 0]);
    }
    if n.ipv6 {
        assert(marks(n).last().skip(18) =~= seq![2u8, 0, 0, 0, 6, 0x80, 15, 3, 0, 2, 1]);
    }
}

/// Of the connections between two speakers the one that the speaker with the greater
/// identifier started is kept: it is outgoing to that speaker, incoming to the other.
pub proof fn law_greater_identifier_keeps_its_connection(greater: Ipv4Addr, other: Ipv4Addr)
    requires
        greater.bits > other.bits,
    ensures
        preferred(greater, other, false),
        !preferred(greater, other, true),
        preferred(other, greater, true),
        !preferred(other, greater, false),
        preferred(greater, greater, false),
{
}

/// Pauses double from two seconds after the first failure, up to thirty seconds.
pub proof fn law_pauses_double(failures: u32)
    requires
        failures < u32::MAX,
    ensures
        pause_secs(0) == 1,
        pause_secs((failures + 1) as u32) == if 2 * pause_secs(failures) <= 30 {
            2 * pause_secs(failures) as int
        } else {
            30
        },
        (Backoff { failures }).failed_again().failures == failures + 1,
{
    lemma2_to64();
}

/// What a peer's turn does with every event: a selected connection is run, a failure
/// or the end of a session is followed by a pause, a pause ends with a new attempt or
/// with the peer's own connection, and a running session lets no other in. A session
/// of thirty seconds or more makes earlier failures forgotten.
pub proof fn law_peer_goes_round(p: PeerLoop, now: u64, started: u64, jitter_ms: u32)
    requires
        jitter_ms < 1000,
        p.backoff.failures < u32::MAX,
    ensures
        p.stage is Connect ==> {
            let (q, action) = p.moved(PeerEvent::Selected, now, jitter_ms);
            q.stage == PeerStage::Session(now) && q.backoff == p.backoff && action
                == PeerAction::Run
        },
        p.stage is Connect ==> {
            let (q, action) = p.moved(PeerEvent::SelectionFailed, now, jitter_ms);
            &&& q.stage is Pause
            &&& q.backoff.failures == p.backoff.failures + 1
            &&& action matches PeerAction::Pause(ms) && ms == pause_secs(q.backoff.failures) * 1000
                + jitter_ms
        },
        p.stage == PeerStage::Session(started) ==> {
            let (q, action) = p.moved(PeerEvent::SessionEnded, now, jitter_ms);
            &&& q.stage is Pause
            &&& q.backoff.failures == if now >= started + 30_000 {
                1
            } else {
                p.backoff.failures + 1
            }
            &&& action matches PeerAction::Pause(ms) && ms == pause_secs(q.backoff.failures) * 1000
                + jitter_ms
        },
        p.stage is Session ==> p.moved(PeerEvent::Connected, now, jitter_ms) == (
            p,
            PeerAction::Refuse,
        ),
        p.stage is Pause ==> {
            let (q, action) = p.moved(PeerEvent::Connected, now, jitter_ms);
            q.stage is Incoming && q.backoff == p.backoff && action == PeerAction::Accept
        },
        p.stage is Pause ==> {
            let (q, action) = p.moved(PeerEvent::PauseOver, now, jitter_ms);
            q.stage is Connect && q.backoff == p.backoff && action == PeerAction::Select
        },
        p.stage is Incoming ==> {
            let (q, action) = p.moved(PeerEvent::SessionEnded, now, jitter_ms);
            q.stage is Connect && q.backoff == p.backoff && action == PeerAction::Select
        },
{
    lemma2_to64();
}

/// An IPv4 prefix is exchanged where IPv4 is, and an IPv6 prefix where IPv6 is.
pub proof fn law_families_are_told_apart(n: Negotiated, p: IpNet, r: bool)
    requires
        call_ensures(enabled, (n, p), r),
    ensures
        p.addr is V4 ==> r == n.ipv4,
        p.addr is V6 ==> r == n.ipv6,
{
}

/// A plan that was made names each prefix that the peer should be told of or relieved
/// of, and no other.
pub proof fn law_plan_is_made(
    advertised: &Prefixes,
    desired: &Prefixes,
    n: &Negotiated,
    refresh: bool,
    plan: Plan,
    p: IpNet,
)
    requires
        call_ensures(Plan::new, (advertised, desired, n, refresh), plan),
    ensures
        ({
            let exchanged = match p.addr {
                IpAddr::V4(_) => n.ipv4,
                IpAddr::V6(_) => n.ipv6,
            };
            &&& plan.withdrawals@.contains(p) <==> advertised@.contains(p) && !(exchanged
                && desired@.contains(p))
            &&& plan.additions@.contains(p) <==> exchanged && desired@.contains(p) && (refresh
                || !advertised@.contains(p))
        }),
{
    law_plan_follows_each_family(plan, advertised@, desired@, *n, refresh, p);
}

/// A batch leaves its queue, and the other queue stays as it was. Nothing is announced
/// before everything is withdrawn.
pub proof fn law_batch_leaves_its_queue(plan: &mut Plan, r: Option<(bool, Vec<IpNet>)>)
    requires
        call_ensures(Plan::next, (plan,), r),
    ensures
        r is None <==> old(plan).withdrawals@.len() == 0 && old(plan).additions@.len() == 0,
        r is None ==> *final(plan) == *old(plan),
        r matches Some((withdraw, batch)) ==> {
            &&& 1 <= batch@.len() <= 200
            &&& withdraw <==> old(plan).withdrawals@.len() > 0
            &&& withdraw ==> batch@ + final(plan).withdrawals@ == old(plan).withdrawals@ && final(
                plan).additions@ == old(plan).additions@
            &&& !withdraw ==> batch@ + final(plan).additions@ == old(plan).additions@ && final(
                plan).withdrawals@ == old(plan).withdrawals@
        },
{
    if let Some((withdraw, batch)) = r {
        let q = if withdraw {
            old(plan).withdrawals@
        } else {
            old(plan).additions@
        };
        assert(batch@ == first_batch(q));
        lemma_run_fits(q, 0);
        assert(batch@ + q.skip(batch@.len() as int) =~= q);
    }
}

/// A peer of whom nothing is known starts with nothing, is to be told all that is
/// exported for it, and is owed the marks for the end of that.
pub proof fn law_peer_starts_with_nothing(
    n: Negotiated,
    exports: &Exports,
    acl: &String,
    now: u64,
    t: Transmit,
    p: IpNet,
)
    requires
        call_ensures(Transmit::new, (n, exports, acl, now), t),
        now + 65535 * 1000 <= u64::MAX,
    ensures
        t.n == n && t.eor && t.last_replan == now && t.last_refresh is None,
        t.phase is Exports,
        t.next_keepalive == now + if n.hold >= 3 {
            n.hold as int / 3 * 1000
        } else {
            1000
        },
        !t.advertised@.contains(p),
        t.target@.contains(p) <==> exports@.dom().contains(acl@) && exports@[acl@].contains(p),
        !t.plan.withdrawals@.contains(p),
        t.plan.additions@.contains(p) <==> t.target@.contains(p) && ((p.addr is V4 && n.ipv4) || (
        p.addr is V6 && n.ipv6)),
{
    law_plan_follows_each_family(t.plan, t.advertised@, t.target@, n, false, p);
}

/// New exports change what a peer should know and what is planned, and not what it
/// knows. Their prefixes are those of the peer's own ACL.
pub proof fn law_new_exports_count(
    t: &mut Transmit,
    now: u64,
    exports: &Exports,
    acl: &String,
    p: IpNet,
)
    requires
        call_ensures(Transmit::retarget, (t, now, exports, acl), ()),
    ensures
        final(t).n == old(t).n && final(t).eor == old(t).eor,
        final(t).next_keepalive == old(t).next_keepalive,
        final(t).last_refresh == old(t).last_refresh && final(t).phase == old(t).phase,
        final(t).last_replan == now,
        final(t).advertised@ == old(t).advertised@,
        final(t).target@.contains(p) <==> exports@.dom().contains(acl@) && exports@[acl@].contains(
            p,
        ),
        p.addr is V4 ==> (final(t).plan.outcome(old(t).advertised@).contains(p)
            <==> final(t).target@.contains(p) && old(t).n.ipv4),
        p.addr is V6 ==> (final(t).plan.outcome(old(t).advertised@).contains(p)
            <==> final(t).target@.contains(p) && old(t).n.ipv6),
        final(t).plan.additions@.contains(p) ==> !old(t).advertised@.contains(p),
        final(t).plan.withdrawals@.contains(p) ==> old(t).advertised@.contains(p),
{
    law_plan_follows_each_family(
        final(t).plan,
        old(t).advertised@,
        final(t).target@,
        old(t).n,
        false,
        p,
    );
}

/// A refresh that is granted announces every prefix that the peer should know once more
/// and owes it the marks again. One that comes too soon changes nothing.
pub proof fn law_refresh_announces_all(t: &mut Transmit, now: u64, p: IpNet)
    requires
        call_ensures(Transmit::refreshed, (t, now), ()),
    ensures
        ({
            let granted = match old(t).last_refresh {
                None => true,
                Some(last) => now >= last + 1000,
            };
            &&& !granted ==> *final(t) == *old(t)
            &&& granted ==> {
                &&& final(t).eor && final(t).last_refresh == Some(now)
                &&& final(t).n == old(t).n && final(t).phase == old(t).phase
                &&& final(t).advertised@ == old(t).advertised@
                &&& final(t).target@ == old(t).target@
                &&& final(t).next_keepalive == old(t).next_keepalive
                &&& final(t).last_replan == old(t).last_replan
                &&& final(t).plan.additions@.contains(p) <==> old(t).target@.contains(p) && ((
                p.addr is V4 && old(t).n.ipv4) || (p.addr is V6 && old(t).n.ipv6))
            }
        }),
{
    law_refreshes_are_limited(*old(t), now);
    if old(t).refresh_allowed(now) {
        law_plan_follows_each_family(
            final(t).plan,
            old(t).advertised@,
            old(t).target@,
            old(t).n,
            true,
            p,
        );
    }
}

/// A keepalive that was sent sets the time of the next, a third of the hold time on, and
/// changes nothing else.
pub proof fn law_keepalive_sets_the_next(t: &mut Transmit, now: u64)
    requires
        call_ensures(Transmit::kept_alive, (t, now), ()),
        now + 65535 * 1000 <= u64::MAX,
    ensures
        final(t).next_keepalive == now + if old(t).n.hold >= 3 {
            old(t).n.hold as int / 3 * 1000
        } else {
            1000
        },
        *final(t) == (Transmit { next_keepalive: final(t).next_keepalive, ..*old(t) }),
{
}

/// One step of keeping a peer up to date: what is sent is what the peer is taken to know
/// from it. A batch of withdrawals is no longer known, a batch of announcements is, and
/// nothing else that is sent changes what is known.
pub proof fn law_step_sends_what_it_counts(
    t: &mut Transmit,
    now: u64,
    changed: bool,
    cfg: &Config,
    peer: &Peer,
    r: Action,
    p: IpNet,
)
    requires
        call_ensures(Transmit::step, (t, now, changed, cfg, peer), r),
    ensures
        final(t).n == old(t).n && final(t).target@ == old(t).target@,
        final(t).next_keepalive == old(t).next_keepalive,
        final(t).last_replan == old(t).last_replan && final(t).last_refresh == old(t).last_refresh,
        !(r is Update) ==> final(t).advertised@ == old(t).advertised@ && final(t).plan == old(t).plan,
        !(r is EndOfRib) ==> final(t).eor == old(t).eor,
        r is Retarget ==> changed && old(t).phase is Exports && final(t).phase is Timer,
        r matches Action::Keepalive(b) ==> b@.len() == 19 && b@[18] == 4 && old(t).n.hold > 0 && now
            >= old(t).next_keepalive && final(t).phase is Batch,
        r matches Action::EndOfRib(v) ==> final(t).phase is Idle && old(t).eor && !final(t).eor
            && v@.len() == marks(old(t).n).len() && forall|i: int|
            0 <= i < v@.len() ==> (#[trigger] v@[i])@ == marks(old(t).n)[i],
        r matches Action::Wait(until) ==> final(t).phase is Exports && (until is Some
            <==> old(t).n.hold > 0) && (until matches Some(at) ==> at == old(t).next_keepalive),
        r matches Action::Update(b) ==> {
            let withdraw = old(t).plan.withdrawals@.len() > 0;
            let batch = old(t).plan.batch();
            &&& b@ == message(2, update_body(*cfg, *peer, old(t).n, batch, withdraw))
            &&& final(t).phase is Exports
            &&& withdraw ==> (final(t).advertised@.contains(p) <==> old(t).advertised@.contains(p)
                && !batch.contains(p))
            &&& !withdraw ==> (final(t).advertised@.contains(p) <==> old(t).advertised@.contains(p)
                || batch.contains(p))
        },
{
    let batch = old(t).plan.batch();
    assert(batch.to_set().contains(p) == batch.contains(p));
    if let Action::Keepalive(b) = r {
        assert(b@.len() == 19) by {
            lemma_be_len(19, 2);
        }
        lemma_be_len(19, 2);
    }
    if let Action::EndOfRib(v) = r {
        assert forall|i: int| 0 <= i < v@.len() implies (#[trigger] v@[i])@ == marks(old(t).n)[i] by {
            assert(packets(v@)[i] == v@[i]@);
        }
    }
}

/// A peer is told the prefixes of its own ACL, and none where there is no such list.
pub proof fn law_peer_gets_its_own_exports(exports: &Exports, acl: &String, r: Prefixes, p: IpNet)
    requires
        call_ensures(desired, (exports, acl), r),
    ensures
        r@.contains(p) <==> exports@.dom().contains(acl@) && exports@[acl@].contains(p),
{
}

/// Every failure makes the next pause longer, up to thirty seconds and less than one
/// more; a peer begins with an attempt and no failure.
pub proof fn law_failures_are_counted(
    start: PeerLoop,
    fresh: Backoff,
    b: &mut Backoff,
    jitter_ms: u32,
    r: u64,
    secs: u64,
)
    requires
        call_ensures(PeerLoop::new, (), start),
        call_ensures(Backoff::new, (), fresh),
        call_ensures(Backoff::next_delay, (b, jitter_ms), r),
        old(b).failures < u32::MAX,
        call_ensures(backoff_secs, (final(b).failures,), secs),
    ensures
        start.stage is Connect && start.backoff.failures == 0,
        fresh.failures == 0,
        final(b).failures == old(b).failures + 1,
        r == secs * 1000 + jitter_ms,
        secs == if old(b).failures == 0 {
            2int
        } else if old(b).failures == 1 {
            4
        } else if old(b).failures == 2 {
            8
        } else if old(b).failures == 3 {
            16
        } else {
            30
        },
{
    lemma2_to64();
}

/// Which step is taken: new exports come first where enough time has passed since the
/// last, then a keepalive whose time has come, then what is queued, withdrawals before
/// announcements, then the marks that are owed. Only then is there nothing to do. What is
/// sent leaves its queue, and the other queue stays as it was.
pub proof fn law_steps_are_taken_in_turn(
    t: &mut Transmit,
    now: u64,
    changed: bool,
    cfg: &Config,
    peer: &Peer,
    r: Action,
)
    requires
        call_ensures(Transmit::step, (t, now, changed, cfg, peer), r),
        old(t).wf(),
    ensures
        ({
            let (q, p) = (old(t).plan.withdrawals@, old(t).plan.additions@);
            let exports = old(t).phase == Phase::Exports && changed && now >= old(t).last_replan
                + 100;
            let keepalive = (old(t).phase == Phase::Exports || old(t).phase == Phase::Timer)
                && old(t).n.hold > 0 && now >= old(t).next_keepalive;
            let queued = q.len() > 0 || p.len() > 0;
            let owed = old(t).eor && old(t).phase != Phase::Idle;
            &&& r is Retarget <==> exports
            &&& r is Keepalive <==> keepalive && !exports
            &&& r is Update <==> queued && !keepalive && !exports
            &&& r is EndOfRib <==> owed && !queued && !keepalive && !exports
            &&& r is Wait <==> !owed && !queued && !keepalive && !exports
            &&& r is Update && q.len() > 0 ==> first_batch(q) + final(t).plan.withdrawals@ == q
                && final(t).plan.additions@ == p
            &&& r is Update && q.len() == 0 ==> first_batch(p) + final(t).plan.additions@ == p
                && final(t).plan.withdrawals@ == q
        }),
{
    law_what_is_due(*old(t), now, changed);
    let (q, p) = (old(t).plan.withdrawals@, old(t).plan.additions@);
    lemma_run_fits(q, 0);
    lemma_run_fits(p, 0);
    if q.len() > 0 {
        assert(first_batch(q) + q.skip(first_batch(q).len() as int) =~= q);
    }
    if p.len() > 0 {
        assert(first_batch(p) + p.skip(first_batch(p).len() as int) =~= p);
    }
}

/// A peer's turn takes each event as it comes: a connection that was selected is run, and
/// after a failure there is a pause as long as the failures ask for, and the jitter.
pub proof fn law_peer_takes_events(
    p: &mut PeerLoop,
    e: PeerEvent,
    now: u64,
    jitter_ms: u32,
    r: PeerAction,
)
    requires
        call_ensures(PeerLoop::step, (p, e, now, jitter_ms), r),
        old(p).expects(e),
        jitter_ms < 1000,
        old(p).backoff.failures < u32::MAX,
    ensures
        e is Selected ==> r is Run && final(p).stage == PeerStage::Session(now),
        e is PauseOver ==> r is Select && final(p).stage is Connect,
        e is Connected && old(p).stage is Session ==> r is Refuse && *final(p) == *old(p),
        e is Connected && old(p).stage is Pause ==> r is Accept && final(p).stage is Incoming,
        e is SessionEnded && old(p).stage is Incoming ==> r is Select && final(p).stage is Connect,
        e is SelectionFailed ==> final(p).backoff.failures == old(p).backoff.failures + 1,
        e is SelectionFailed || (e is SessionEnded && old(p).stage is Session) ==> final(
            p).stage is Pause && (r matches PeerAction::Pause(ms) && ms == pause_secs(
            final(p).backoff.failures,
        ) * 1000 + jitter_ms),
        old(p).stage matches PeerStage::Session(started) ==> e is SessionEnded
            ==> final(p).backoff.failures == if now >= started + 30_000 {
            1
        } else {
            old(p).backoff.failures + 1
        },
        !(r is Pause) ==> final(p).backoff == old(p).backoff,
{
    let started = match old(p).stage {
        PeerStage::Session(at) => at,
        _ => 0,
    };
    law_peer_goes_round(*old(p), now, started, jitter_ms);
}

} // verus!
