//! When to read the kernel's routes again, and how long to trust what was read.
//! Times are milliseconds on one clock that never goes back.
use vstd::arithmetic::power2::{lemma2_to64, pow2};
use std::sync::Arc;
use vstd::prelude::*;

use crate::clock::{later, passed};
use crate::config::Config;
use crate::net::IpNet;
use crate::netlink::event::Events;
use crate::netlink::export::Exports;

verus! {

/// How long published routes have been in doubt.
#[derive(Clone, Copy, Debug, PartialEq, Eq, Structural)]
pub struct Freshness {
    pub dirty_since: Option<u64>,
    pub withdrawn: bool,
}

impl Freshness {
    /// A refresh became necessary.
    pub open spec fn invalidated(self, now: u64) -> Freshness {
        Freshness {
            dirty_since: match self.dirty_since {
                Some(start) => Some(start),
                None => Some(now),
            },
            ..self
        }
    }

    /// Note that a refresh became necessary. The first note counts.
    pub fn invalidate(&mut self, now: u64)
        ensures
            *final(self) == old(self).invalidated(now),
    {
        if self.dirty_since.is_none() {
            self.dirty_since = Some(now);
        }
    }

    /// Whether what is published has been in doubt for too long and still stands.
    pub open spec fn is_stale(self, now: u64, limit: u64) -> bool {
        !self.withdrawn && (self.dirty_since matches Some(start) && passed(now, start, limit))
    }

    /// Whether to withdraw everything now, which is then taken as done.
    pub fn expire(&mut self, now: u64, limit: u64) -> (r: bool)
        ensures
            r == old(self).is_stale(now, limit),
            *final(self) == (Freshness {
                withdrawn: old(self).withdrawn || r,
                ..*old(self)
            }),
    {
        let stale = !self.withdrawn && match self.dirty_since {
            Some(start) => passed(now, start, limit),
            None => false,
        };
        if stale {
            self.withdrawn = true;
        }
        stale
    }

    /// The freshness of a complete snapshot. Where routes changed while it was
    /// taken it is in doubt at once.
    pub open spec fn fresh(now: u64, changed: bool) -> Freshness {
        Freshness {
            dirty_since: if changed {
                Some(now)
            } else {
                None
            },
            withdrawn: false,
        }
    }

    /// A complete snapshot is to be published in place of what is. The result is
    /// whether that changes anything.
    pub fn publish(&mut self, now: u64, changed: bool, current: &Exports, next: &Exports) -> (r:
        bool)
        requires
            current.wf(),
            next.wf(),
        ensures
            r == (current@ != next@),
            *final(self) == Freshness::fresh(now, changed),
    {
        self.dirty_since = if changed {
            Some(now)
        } else {
            None
        };
        self.withdrawn = false;
        !current.same(next)
    }
}

/// What is published, and how fresh it is.
#[verifier::ext_equal]
pub struct Published {
    pub freshness: Freshness,
    pub exports: Map<Seq<char>, Set<IpNet>>,
}

/// What happens to published exports.
pub enum Notice {
    /// A refresh became necessary.
    Doubt(u64),
    /// The watchdog looks.
    Look(u64),
    /// A complete snapshot gave these exports.
    Complete(u64, bool, Map<Seq<char>, Set<IpNet>>),
}

impl Published {
    /// What was withdrawn is not published.
    pub open spec fn wf(self) -> bool {
        self.freshness.withdrawn ==> self.exports == Map::<Seq<char>, Set<IpNet>>::empty()
    }

    /// What is published after a notice.
    pub open spec fn after(self, n: Notice, limit: u64) -> Published {
        match n {
            Notice::Doubt(now) => Published { freshness: self.freshness.invalidated(now), ..self },
            Notice::Look(now) => if self.freshness.is_stale(now, limit) {
                Published {
                    freshness: Freshness { withdrawn: true, ..self.freshness },
                    exports: Map::empty(),
                }
            } else {
                self
            },
            Notice::Complete(now, changed, exports) => Published {
                freshness: Freshness::fresh(now, changed),
                exports,
            },
        }
    }
}

/// Holds what is published. Whoever changes it shows the new exports to the peers
/// before anyone else may change it.
pub struct Board {
    pub freshness: Freshness,
    pub exports: Arc<Exports>,
    /// How long exports may be in doubt.
    pub limit: u64,
}

impl View for Board {
    type V = Published;

    open spec fn view(&self) -> Published {
        Published { freshness: self.freshness, exports: self.exports@ }
    }
}

impl Board {
    pub open spec fn wf(self) -> bool {
        self.exports.wf() && self@.wf()
    }

    /// Take over exports from earlier. They are in doubt at once.
    pub fn new(now: u64, exports: Arc<Exports>, limit: u64) -> (r: Board)
        requires
            exports.wf(),
        ensures
            r.wf(),
            r@ == (Published {
                freshness: Freshness { dirty_since: Some(now), withdrawn: false },
                exports: exports@,
            }),
            r.limit == limit,
    {
        Board {
            freshness: Freshness { dirty_since: Some(now), withdrawn: false },
            exports,
            limit,
        }
    }

    /// A refresh became necessary.
    pub fn doubt(&mut self, now: u64)
        requires
            old(self).wf(),
        ensures
            final(self).wf(),
            final(self).limit == old(self).limit,
            final(self)@ == old(self)@.after(Notice::Doubt(now), old(self).limit),
    {
        self.freshness.invalidate(now);
    }

    /// The watchdog looks. The result is whether it withdrew everything.
    pub fn look(&mut self, now: u64) -> (r: bool)
        requires
            old(self).wf(),
        ensures
            final(self).wf(),
            final(self).limit == old(self).limit,
            final(self)@ == old(self)@.after(Notice::Look(now), old(self).limit),
            r == old(self).freshness.is_stale(now, old(self).limit),
    {
        if self.freshness.expire(now, self.limit) {
            self.exports = Arc::new(Exports::new());
            true
        } else {
            false
        }
    }

    /// A complete snapshot gave these exports. The result is whether they are
    /// others than before.
    pub fn complete(&mut self, now: u64, changed: bool, exports: Arc<Exports>) -> (r: bool)
        requires
            old(self).wf(),
            exports.wf(),
        ensures
            final(self).wf(),
            final(self).limit == old(self).limit,
            final(self)@ == old(self)@.after(
                Notice::Complete(now, changed, exports@),
                old(self).limit,
            ),
            r == (old(self).exports@ != exports@),
    {
        let differs = self.freshness.publish(now, changed, &self.exports, &exports);
        if differs {
            self.exports = exports;
        }
        differs
    }
}

/// Whatever happens, nothing is published but what a complete snapshot gave, or
/// nothing at all; and what has been in doubt for the limit is gone at the next look.
pub proof fn law_only_fresh_complete_exports_are_published(p: Published, n: Notice, limit: u64)
    requires
        p.wf(),
    ensures
        p.after(n, limit).wf(),
        match n {
            Notice::Doubt(_) => p.after(n, limit).exports == p.exports,
            Notice::Look(now) => {
                &&& p.after(n, limit).exports == p.exports || p.after(n, limit).exports
                    == Map::<Seq<char>, Set<IpNet>>::empty()
                &&& (p.freshness.dirty_since matches Some(start) && passed(now, start, limit))
                    ==> p.after(n, limit).exports == Map::<Seq<char>, Set<IpNet>>::empty()
            },
            Notice::Complete(_, _, exports) => p.after(n, limit).exports == exports,
        },
{
}

/// What is left of a freshness after a run of notes.
pub open spec fn invalidated_at(f: Freshness, times: Seq<u64>) -> Freshness
    decreases times.len(),
{
    if times.len() == 0 {
        f
    } else {
        invalidated_at(f, times.drop_last()).invalidated(times.last())
    }
}

/// However often a refresh is asked for and fails, the deadline stays where the
/// first note put it: what is published is withdrawn once the limit has passed
/// since then, and not before.
pub proof fn law_failed_refreshes_do_not_move_the_deadline(
    f: Freshness,
    times: Seq<u64>,
    now: u64,
    limit: u64,
)
    requires
        f.dirty_since is None,
        !f.withdrawn,
        times.len() > 0,
    ensures
        invalidated_at(f, times).dirty_since == Some(times[0]),
        invalidated_at(f, times).is_stale(now, limit) == passed(now, times[0], limit),
    decreases times.len(),
{
    if times.len() == 1 {
        assert(invalidated_at(f, times.drop_last()) == f);
    } else {
        law_failed_refreshes_do_not_move_the_deadline(f, times.drop_last(), now, limit);
    }
}

/// The pause after this many failures in a row: a tenth of a second, doubled with
/// each of the first five, and at most three seconds.
pub open spec fn retry_delay_ms(retries: u32) -> u64 {
    let doubled = 100 * pow2(
        if retries <= 5 {
            retries as nat
        } else {
            5
        },
    );
    if doubled <= 3000 {
        doubled as u64
    } else {
        3000
    }
}

/// How long to pause after this many failures in a row.
pub fn retry_delay(retries: u32) -> (r: u64)
    ensures
        r == retry_delay_ms(retries),
{
    proof {
        lemma2_to64();
    }
    match retries {
        0 => 100,
        1 => 200,
        2 => 400,
        3 => 800,
        4 => 1600,
        _ => 3000,
    }
}

/// Pauses between retries grow and stay between a tenth of a second and three seconds.
pub proof fn law_retry_delay_is_bounded(a: u32, b: u32)
    requires
        a <= b,
    ensures
        100 <= retry_delay_ms(a) <= retry_delay_ms(b) <= 3000,
{
    lemma2_to64();
}

/// What the worker that reads kernel routes does next.
#[derive(Clone, Copy, Debug, PartialEq, Eq, Structural)]
pub struct Worker {
    pub refresh_ms: u64,
    pub reconcile_ms: u64,
    /// The earliest time of the next dump.
    pub due: u64,
    /// When everything is read again in any case.
    pub periodic: u64,
    pub dirty_since: Option<u64>,
    pub retries: u32,
    pub losses: u64,
    pub dumps: u64,
}

impl Worker {
    /// Start with a dump to take at once.
    pub fn new(cfg: &Config, now: u64) -> (r: Worker)
        requires
            cfg.kernel.reconcile_interval_secs * 1000 <= u64::MAX,
        ensures
            r == (Worker {
                refresh_ms: cfg.kernel.refresh_interval_ms,
                reconcile_ms: (cfg.kernel.reconcile_interval_secs * 1000) as u64,
                due: now,
                periodic: now,
                dirty_since: Some(now),
                retries: 0,
                losses: 0,
                dumps: 0,
            }),
    {
        Worker {
            refresh_ms: cfg.kernel.refresh_interval_ms,
            reconcile_ms: cfg.kernel.reconcile_interval_secs * 1000,
            due: now,
            periodic: now,
            dirty_since: Some(now),
            retries: 0,
            losses: 0,
            dumps: 0,
        }
    }

    /// Whether a pass over the notifications puts what is published in doubt.
    pub open spec fn doubts(self, now: u64, events: Events) -> bool {
        events.changed || events.lost || now >= self.periodic
    }

    /// The worker after a pass over the notifications.
    pub open spec fn after(self, now: u64, events: Events) -> Worker {
        Worker {
            dirty_since: if self.doubts(now, events) && self.dirty_since is None {
                Some(now)
            } else {
                self.dirty_since
            },
            losses: if events.lost {
                later(self.losses, 1)
            } else {
                self.losses
            },
            ..self
        }
    }

    /// Take note of a pass over the notifications. The result is whether what is
    /// published came in doubt.
    pub fn noticed(&mut self, now: u64, events: &Events) -> (r: bool)
        ensures
            r == old(self).doubts(now, *events),
            *final(self) == old(self).after(now, *events),
    {
        let doubt = events.changed || events.lost || now >= self.periodic;
        if doubt && self.dirty_since.is_none() {
            self.dirty_since = Some(now);
        }
        if events.lost {
            self.losses = later(self.losses, 1);
        }
        doubt
    }

    /// Whether to take a snapshot now.
    pub open spec fn spec_ready(&self, now: u64) -> bool {
        self.dirty_since is Some && now >= self.due
    }

    #[verifier::when_used_as_spec(spec_ready)]
    pub fn ready(&self, now: u64) -> (r: bool)
        ensures
            r == self.ready(now),
    {
        self.dirty_since.is_some() && now >= self.due
    }

    /// Notifications were lost while a snapshot was evaluated: it is discarded.
    pub fn discard(&mut self, now: u64)
        ensures
            *final(self) == (Worker {
                losses: later(old(self).losses, 1),
                dumps: later(old(self).dumps, 1),
                due: later(now, old(self).refresh_ms),
                ..*old(self)
            }),
    {
        self.dumps = later(self.dumps, 1);
        self.losses = later(self.losses, 1);
        self.due = later(now, self.refresh_ms);
    }

    /// A snapshot was evaluated, and these notifications came meanwhile. Where some
    /// were lost it is discarded; else the result is whether routes changed since it
    /// was begun.
    pub fn evaluated(&mut self, now: u64, changed: bool, after: &Events) -> (r: Option<bool>)
        ensures
            after.lost ==> r is None && *final(self) == (Worker {
                losses: later(old(self).losses, 1),
                dumps: later(old(self).dumps, 1),
                due: later(now, old(self).refresh_ms),
                ..*old(self)
            }),
            !after.lost ==> r == Some(changed || after.changed) && *final(self) == *old(self),
    {
        if after.lost {
            self.discard(now);
            None
        } else {
            Some(changed || after.changed)
        }
    }

    /// The worker after a snapshot was published.
    pub open spec fn after_publishing(self, now: u64, changed: bool) -> Worker {
        Worker {
            dumps: later(self.dumps, 1),
            retries: 0,
            dirty_since: if changed {
                Some(now)
            } else {
                None
            },
            periodic: later(now, self.reconcile_ms),
            due: later(now, self.refresh_ms),
            ..self
        }
    }

    /// A snapshot was published. Where routes changed meanwhile another is needed.
    pub fn published(&mut self, now: u64, changed: bool)
        ensures
            *final(self) == old(self).after_publishing(now, changed),
    {
        self.dumps = later(self.dumps, 1);
        self.retries = 0;
        self.dirty_since = if changed {
            Some(now)
        } else {
            None
        };
        self.periodic = later(now, self.reconcile_ms);
        self.due = later(now, self.refresh_ms);
    }

    /// The worker after a snapshot failed.
    pub open spec fn after_failing(self, now: u64) -> Worker {
        let retries = if self.retries == u32::MAX {
            u32::MAX
        } else {
            (self.retries + 1) as u32
        };
        Worker { retries, due: later(now, retry_delay_ms(retries)), ..self }
    }

    /// A snapshot failed. What came in doubt stays in doubt since then.
    pub fn failed(&mut self, now: u64)
        ensures
            *final(self) == old(self).after_failing(now),
    {
        self.retries = self.retries.saturating_add(1);
        self.due = later(now, retry_delay(self.retries));
    }
}

/// Notifications never postpone a refresh: whatever comes in, a worker that is
/// ready stays ready, and one that is in doubt is ready when it would have been.
pub proof fn law_notifications_do_not_postpone(w: Worker, events: Events, now: u64, then: u64)
    requires
        w.dirty_since is Some,
    ensures
        w.after(now, events).ready(then) == w.ready(then),
        w.after(now, events).dirty_since == w.dirty_since,
{
}

/// Every change and every loss leads to a dump, at the latest when the next is due.
pub proof fn law_notice_leads_to_a_dump(w: Worker, events: Events, now: u64, then: u64)
    requires
        w.doubts(now, events),
        then >= w.due,
    ensures
        w.after(now, events).ready(then),
{
}

/// Routes that change while a snapshot is taken lead to another one, no sooner
/// than the pause between refreshes allows.
pub proof fn law_change_during_a_dump_leads_to_another(w: Worker, now: u64, then: u64)
    ensures
        w.after_publishing(now, true).ready(then) <==> then >= later(now, w.refresh_ms),
        !w.after_publishing(now, false).ready(then),
{
}

/// A snapshot that failed is taken again within three seconds, and nothing of the
/// doubt is forgotten.
pub proof fn law_failed_dump_is_retried(w: Worker, now: u64, then: u64)
    requires
        w.dirty_since is Some,
        then >= now + 3000,
    ensures
        w.after_failing(now).ready(then),
        w.after_failing(now).dirty_since == w.dirty_since,
{
    law_retry_delay_is_bounded(w.after_failing(now).retries, u32::MAX);
}

/// What is published is stale once it has been in doubt for the limit, counted from the
/// first doubt, and has not been withdrawn yet.
pub proof fn law_stale_exports(f: Freshness, now: u64, start: u64, limit: u64)
    requires
        limit > 0,
    ensures
        f.dirty_since is None ==> !f.is_stale(now, limit),
        f.withdrawn ==> !f.is_stale(now, limit),
        f.dirty_since == Some(start) && !f.withdrawn ==> (f.is_stale(now, limit) <==> now >= start
            + limit),
        f.dirty_since is None ==> f.invalidated(now).dirty_since == Some(now),
        f.dirty_since == Some(start) ==> f.invalidated(now) == f,
        f.invalidated(now).withdrawn == f.withdrawn,
        Freshness::fresh(now, true).dirty_since == Some(now),
        Freshness::fresh(now, false).dirty_since is None,
        !Freshness::fresh(now, true).withdrawn && !Freshness::fresh(now, false).withdrawn,
{
}

/// The pause after failures starts at a tenth of a second, doubles with each, and is
/// never longer than three seconds.
pub proof fn law_retry_delay_doubles(retries: u32)
    requires
        retries < u32::MAX,
    ensures
        retry_delay_ms(0) == 100,
        retry_delay_ms((retries + 1) as u32) == if 2 * retry_delay_ms(retries) <= 3000 {
            2 * retry_delay_ms(retries) as int
        } else {
            3000
        },
{
    lemma2_to64();
}

/// A worker is in doubt after a change, after a loss, and when everything is to be read
/// again in any case; a loss is counted. It reads when it is in doubt and its next turn
/// has come.
pub proof fn law_worker_reads_when_in_doubt(w: Worker, events: Events, now: u64)
    ensures
        w.doubts(now, events) <==> events.changed || events.lost || now >= w.periodic,
        w.dirty_since is None ==> (w.after(now, events).dirty_since == if events.changed
            || events.lost || now >= w.periodic {
            Some(now)
        } else {
            None
        }),
        w.dirty_since is Some ==> w.after(now, events).dirty_since == w.dirty_since,
        events.lost && w.losses < u64::MAX ==> w.after(now, events).losses == w.losses + 1,
        !events.lost ==> w.after(now, events).losses == w.losses,
        w.after(now, events).due == w.due && w.after(now, events).periodic == w.periodic,
        w.after(now, events).retries == w.retries && w.after(now, events).dumps == w.dumps,
        w.ready(now) <==> w.dirty_since is Some && now >= w.due,
{
}

/// After a snapshot was published the worker pauses, starts to count failures anew, and
/// reads everything again after the time that is set for it.
pub proof fn law_worker_after_publishing(w: Worker, now: u64, changed: bool)
    requires
        now + w.refresh_ms <= u64::MAX,
        now + w.reconcile_ms <= u64::MAX,
        w.dumps < u64::MAX,
    ensures
        ({
            let x = w.after_publishing(now, changed);
            &&& x.due == now + w.refresh_ms
            &&& x.periodic == now + w.reconcile_ms
            &&& x.retries == 0
            &&& x.dumps == w.dumps + 1
            &&& x.losses == w.losses
            &&& changed ==> x.dirty_since == Some(now)
            &&& !changed ==> x.dirty_since is None
            &&& x.refresh_ms == w.refresh_ms && x.reconcile_ms == w.reconcile_ms
        }),
{
}

/// After a failure the worker pauses as long as the failures in a row ask for, and
/// stays in doubt since the same time.
pub proof fn law_worker_after_failing(w: Worker, now: u64)
    requires
        now + 3000 <= u64::MAX,
        w.retries < u32::MAX,
    ensures
        ({
            let x = w.after_failing(now);
            &&& x.retries == w.retries + 1
            &&& x.due == now + retry_delay_ms(x.retries)
            &&& x.dirty_since == w.dirty_since
            &&& x.periodic == w.periodic
            &&& x.losses == w.losses && x.dumps == w.dumps
        }),
{
    law_retry_delay_is_bounded(w.after_failing(now).retries, u32::MAX);
}

/// What is found stale is withdrawn once: a second look finds nothing more to withdraw.
pub proof fn law_stale_exports_expire_once(
    f: &mut Freshness,
    g: &mut Freshness,
    now: u64,
    again: u64,
    limit: u64,
    r: bool,
    s: bool,
)
    requires
        call_ensures(Freshness::expire, (f, now, limit), r),
        call_ensures(Freshness::expire, (g, again, limit), s),
        *old(g) == *final(f),
        limit > 0,
    ensures
        r <==> !old(f).withdrawn && (old(f).dirty_since matches Some(start) && now >= start
            + limit),
        final(f).dirty_since == old(f).dirty_since,
        final(f).withdrawn <==> old(f).withdrawn || r,
        r ==> !s,
{
    if let Some(start) = old(f).dirty_since {
        law_stale_exports(*old(f), now, start, limit);
    }
}

/// A snapshot clears all doubt, but for what changed while it was taken. It is told to
/// the peers exactly where it differs from what they were told.
pub proof fn law_snapshot_clears_doubt(
    f: &mut Freshness,
    now: u64,
    changed: bool,
    current: &Exports,
    next: &Exports,
    r: bool,
)
    requires
        call_ensures(Freshness::publish, (f, now, changed, current, next), r),
    ensures
        r <==> current@ != next@,
        !final(f).withdrawn,
        final(f).dirty_since is Some <==> changed,
        final(f).dirty_since matches Some(at) ==> at == now,
{
}

/// A doubt starts when it is first noted.
pub proof fn law_first_doubt_counts(f: &mut Freshness, now: u64)
    requires
        call_ensures(Freshness::invalidate, (f, now), ()),
    ensures
        final(f).withdrawn == old(f).withdrawn,
        old(f).dirty_since is Some ==> final(f).dirty_since == old(f).dirty_since,
        old(f).dirty_since is None ==> final(f).dirty_since == Some(now),
{
}

/// What is published at first is what there was before, and in doubt from then on.
pub proof fn law_board_starts_in_doubt(now: u64, exports: Arc<Exports>, limit: u64, b: Board)
    requires
        call_ensures(Board::new, (now, exports, limit), b),
    ensures
        b.exports@ == exports@ && b.limit == limit,
        b.freshness.dirty_since == Some(now) && !b.freshness.withdrawn,
{
}

/// A doubt changes nothing that is published.
pub proof fn law_doubt_keeps_what_is_published(b: &mut Board, now: u64)
    requires
        call_ensures(Board::doubt, (b, now), ()),
    ensures
        final(b).exports@ == old(b).exports@ && final(b).limit == old(b).limit,
        final(b).freshness.withdrawn == old(b).freshness.withdrawn,
        final(b).freshness.dirty_since == match old(b).freshness.dirty_since {
            Some(start) => Some(start),
            None => Some(now),
        },
{
    assert(final(b)@.exports == final(b).exports@);
}

/// A look withdraws everything once the limit has passed since the first doubt, and
/// nothing before.
pub proof fn law_look_withdraws_what_is_stale(b: &mut Board, now: u64, r: bool)
    requires
        call_ensures(Board::look, (b, now), r),
        old(b).limit > 0,
    ensures
        final(b).limit == old(b).limit,
        r <==> !old(b).freshness.withdrawn && (old(b).freshness.dirty_since matches Some(start)
            && now >= start + old(b).limit),
        r ==> final(b).exports@ == Map::<Seq<char>, Set<IpNet>>::empty()
            && final(b).freshness.withdrawn && final(b).freshness.dirty_since
            == old(b).freshness.dirty_since,
        !r ==> final(b).exports@ == old(b).exports@ && final(b).freshness == old(b).freshness,
{
    assert(final(b)@.exports == final(b).exports@);
    if let Some(start) = old(b).freshness.dirty_since {
        law_stale_exports(old(b).freshness, now, start, old(b).limit);
    }
}

/// A complete snapshot takes the place of what is published.
pub proof fn law_complete_snapshot_is_published(
    b: &mut Board,
    now: u64,
    changed: bool,
    exports: Arc<Exports>,
    r: bool,
)
    requires
        call_ensures(Board::complete, (b, now, changed, exports), r),
    ensures
        final(b).limit == old(b).limit,
        final(b).exports@ == exports@,
        r <==> old(b).exports@ != exports@,
        !final(b).freshness.withdrawn,
        final(b).freshness.dirty_since is Some <==> changed,
        final(b).freshness.dirty_since matches Some(at) ==> at == now,
{
    assert(final(b)@.exports == final(b).exports@);
}

/// A worker starts in doubt, with its first turn at once.
pub proof fn law_worker_starts_at_once(cfg: &Config, now: u64, w: Worker)
    requires
        call_ensures(Worker::new, (cfg, now), w),
        cfg.kernel.reconcile_interval_secs * 1000 <= u64::MAX,
    ensures
        w.due == now && w.periodic == now && w.dirty_since == Some(now),
        w.retries == 0 && w.losses == 0 && w.dumps == 0,
        w.refresh_ms == cfg.kernel.refresh_interval_ms,
        w.reconcile_ms == cfg.kernel.reconcile_interval_secs * 1000,
{
}

/// What a worker sees of the notifications: it is ready, and in doubt, where one told of a
/// change or a loss, or where it is time to read everything anyway.
pub proof fn law_worker_notices(w: &mut Worker, now: u64, events: &Events, r: bool)
    requires
        call_ensures(Worker::noticed, (w, now, events), r),
    ensures
        r <==> events.changed || events.lost || now >= old(w).periodic,
        final(w).dirty_since == if old(w).dirty_since is None && r {
            Some(now)
        } else {
            old(w).dirty_since
        },
        final(w).due == old(w).due && final(w).periodic == old(w).periodic,
        final(w).retries == old(w).retries && final(w).dumps == old(w).dumps,
        final(w).refresh_ms == old(w).refresh_ms && final(w).reconcile_ms == old(w).reconcile_ms,
        !events.lost ==> final(w).losses == old(w).losses,
        events.lost && old(w).losses < u64::MAX ==> final(w).losses == old(w).losses + 1,
{
    law_worker_reads_when_in_doubt(*old(w), *events, now);
}

/// A snapshot that is thrown away counts as a loss and as a dump, leaves the doubt as it
/// is, and is followed by the pause between refreshes.
pub proof fn law_discarded_snapshot_is_counted(w: &mut Worker, now: u64)
    requires
        call_ensures(Worker::discard, (w, now), ()),
        now + old(w).refresh_ms <= u64::MAX,
        old(w).losses < u64::MAX,
        old(w).dumps < u64::MAX,
    ensures
        final(w).losses == old(w).losses + 1 && final(w).dumps == old(w).dumps + 1,
        final(w).due == now + old(w).refresh_ms,
        final(w).dirty_since == old(w).dirty_since && final(w).periodic == old(w).periodic,
        final(w).retries == old(w).retries,
        final(w).refresh_ms == old(w).refresh_ms && final(w).reconcile_ms == old(w).reconcile_ms,
{
}

/// A snapshot is thrown away exactly where a notification was lost meanwhile; else it is
/// in doubt where anything changed, before it was complete or since.
pub proof fn law_snapshot_is_judged_by_what_came_meanwhile(
    w: &mut Worker,
    now: u64,
    changed: bool,
    after: &Events,
    r: Option<bool>,
)
    requires
        call_ensures(Worker::evaluated, (w, now, changed, after), r),
        now + old(w).refresh_ms <= u64::MAX,
        old(w).losses < u64::MAX,
        old(w).dumps < u64::MAX,
    ensures
        r is None <==> after.lost,
        r matches Some(doubt) ==> *final(w) == *old(w) && (doubt <==> changed || after.changed),
        r is None ==> final(w).losses == old(w).losses + 1 && final(w).dumps == old(w).dumps + 1
            && final(w).due == now + old(w).refresh_ms && final(w).dirty_since
            == old(w).dirty_since && final(w).periodic == old(w).periodic && final(w).retries
            == old(w).retries,
{
}

/// A worker that published pauses and forgets its failures; one that failed pauses longer
/// the more often it failed.
pub proof fn law_worker_pauses(
    w: &mut Worker,
    v: &mut Worker,
    now: u64,
    changed: bool,
    delay: u64,
)
    requires
        call_ensures(Worker::published, (w, now, changed), ()),
        call_ensures(Worker::failed, (v, now), ()),
        old(v).retries < u32::MAX,
        call_ensures(retry_delay, (final(v).retries,), delay),
        now + 3000 <= u64::MAX,
        now + old(w).refresh_ms <= u64::MAX,
        now + old(w).reconcile_ms <= u64::MAX,
        old(w).dumps < u64::MAX,
    ensures
        final(w).due == now + old(w).refresh_ms && final(w).periodic == now + old(w).reconcile_ms,
        final(w).retries == 0 && final(w).dumps == old(w).dumps + 1,
        final(w).losses == old(w).losses,
        final(w).dirty_since == if changed {
            Some(now)
        } else {
            None
        },
        final(v).retries == old(v).retries + 1,
        final(v).due == now + delay,
        delay == if old(v).retries == 0 {
            200int
        } else if old(v).retries == 1 {
            400
        } else if old(v).retries == 2 {
            800
        } else if old(v).retries == 3 {
            1600
        } else {
            3000
        },
        final(v).dirty_since == old(v).dirty_since && final(v).periodic == old(v).periodic,
        final(v).losses == old(v).losses && final(v).dumps == old(v).dumps,
{
    lemma2_to64();
    law_worker_after_publishing(*old(w), now, changed);
    law_worker_after_failing(*old(v), now);
}

} // verus!
