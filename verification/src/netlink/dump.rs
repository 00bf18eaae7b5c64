//! Complete dumps of the selected tables.
use vstd::prelude::*;

use crate::bytes::ByteOrder;
use crate::config::Config;
use crate::net::{IpNet, Prefixes};
use crate::netlink::event::Events;
use crate::netlink::message::request_message;
use crate::netlink::message::split;
use crate::netlink::message::Envelope;
use crate::netlink::message::{
    messages_in, native, request, Message, NetlinkError, AF_INET, AF_INET6, NLMSG_DONE,
    NLMSG_ERROR, NLMSG_OVERRUN, RTM_NEWROUTE,
};
use crate::netlink::route::route_in;
use crate::netlink::route::route_of;

verus! {

/// The system error for something that does not exist.
pub const ENOENT: i32 = 2;

/// The system error behind a status that the kernel sends as a negative number.
/// The one number without an opposite becomes the greatest.
pub open spec fn spec_errno(status: u32) -> i32 {
    if status < 0x8000_0000 {
        -(status as int) as i32
    } else if status == 0x8000_0000 {
        i32::MAX
    } else {
        (0x1_0000_0000 - status) as i32
    }
}

#[verifier::when_used_as_spec(spec_errno)]
pub fn errno(status: u32) -> (r: i32)
    ensures
        r == errno(status),
{
    if status < 0x8000_0000 {
        -(status as i32)
    } else if status == 0x8000_0000 {
        i32::MAX
    } else {
        (0x1_0000_0000u64 - status as u64) as i32
    }
}

/// What the status at the end of a dump says. That a table does not exist is
/// fine as long as no route of it was seen.
pub open spec fn status_of(order: ByteOrder, payload: Seq<u8>, saw_route: bool) -> Result<
    (),
    NetlinkError,
> {
    if payload.len() == 0 {
        Ok(())
    } else if payload.len() < 4 {
        Err(NetlinkError::ShortStatus)
    } else {
        let e = errno(order.value(payload.subrange(0, 4)) as u32);
        if e == 0 || e == ENOENT && !saw_route {
            Ok(())
        } else {
            Err(NetlinkError::DumpFailed(e))
        }
    }
}

/// Judge a status whose number has the given byte order.
pub fn dump_status_in(order: ByteOrder, payload: &[u8], saw_route: bool) -> (r: Result<
    (),
    NetlinkError,
>)
    ensures
        r == status_of(order, payload@, saw_route),
{
    if payload.len() == 0 {
        return Ok(());
    }
    if payload.len() < 4 {
        return Err(NetlinkError::ShortStatus);
    }
    let e: i32 = errno(order.u32n(payload));
    if e == 0 || (e == ENOENT && !saw_route) {
        Ok(())
    } else {
        Err(NetlinkError::DumpFailed(e))
    }
}

/// Judge a status of this machine.
pub fn dump_status(payload: &[u8], saw_route: bool) -> (r: Result<(), NetlinkError>)
    ensures
        exists|order: ByteOrder| r == status_of(order, payload@, saw_route),
{
    dump_status_in(native(), payload, saw_route)
}

/// How far the reply to one request has come, and what all replies gave so far.
#[verifier::ext_equal]
pub struct Progress {
    pub prefixes: Set<IpNet>,
    pub saw_route: bool,
    pub done: bool,
}

/// What a request expects, and the limits of the dump.
pub struct Terms {
    pub order: ByteOrder,
    pub seq: u32,
    pub tables: Seq<u32>,
    pub limit: nat,
}

impl Terms {
    /// The terms of the request that a reply is for.
    pub open spec fn of(self, r: Reply) -> Terms {
        Terms { seq: r.seq, ..self }
    }
}

/// The reply to one request, as far as it has come.
#[verifier::ext_equal]
pub struct Reply {
    pub family: u8,
    pub table: u32,
    pub seq: u32,
    pub datagrams: Seq<Seq<u8>>,
}

/// Everything that went into a snapshot: the replies in the order of their
/// requests, and the notifications that were noted.
#[verifier::ext_equal]
pub struct Trace {
    pub replies: Seq<Reply>,
    pub events: Seq<Events>,
}

impl Trace {
    /// The trace with one more datagram of the last reply.
    pub open spec fn with(self, b: Seq<u8>) -> Trace {
        let last = self.replies.last();
        Trace {
            replies: self.replies.drop_last().push(
                Reply { datagrams: last.datagrams.push(b), ..last },
            ),
            ..self
        }
    }
}

/// What one message of a reply changes.
pub open spec fn heard(t: Terms, m: Envelope, s: Progress) -> Result<Progress, NetlinkError> {
    if m.seq != t.seq {
        Err(NetlinkError::Sequence)
    } else if m.flags / 0x10 % 2 != 0 {
        Err(NetlinkError::Interrupted)
    } else if m.kind == NLMSG_DONE {
        match status_of(t.order, m.payload, s.saw_route) {
            Ok(_) => Ok(Progress { done: true, ..s }),
            Err(e) => Err(e),
        }
    } else if m.kind == NLMSG_ERROR {
        if m.payload.len() < 4 {
            Err(NetlinkError::ShortError)
        } else {
            let e = errno(t.order.value(m.payload.subrange(0, 4)) as u32);
            if e == ENOENT && !s.saw_route {
                Ok(Progress { done: true, ..s })
            } else if e != 0 {
                Err(NetlinkError::Dump(e))
            } else {
                Ok(s)
            }
        }
    } else if m.kind == NLMSG_OVERRUN {
        Err(NetlinkError::Overrun)
    } else if m.kind == RTM_NEWROUTE {
        match route_of(t.order, m.payload, t.tables) {
            Err(e) => Err(e),
            Ok(None) => Ok(Progress { saw_route: true, ..s }),
            Ok(Some(p)) => if s.prefixes.insert(p).len() > t.limit {
                Err(NetlinkError::TooManyPrefixes)
            } else {
                Ok(Progress { saw_route: true, prefixes: s.prefixes.insert(p), ..s })
            },
        }
    } else {
        Ok(s)
    }
}

/// What a run of messages changes; the first error ends it.
pub open spec fn heard_all(t: Terms, m: Seq<Envelope>, s: Progress) -> Result<
    Progress,
    NetlinkError,
>
    decreases m.len(),
{
    if m.len() == 0 {
        Ok(s)
    } else {
        match heard_all(t, m.drop_last(), s) {
            Err(e) => Err(e),
            Ok(next) => heard(t, m.last(), next),
        }
    }
}

/// What one datagram of a reply changes.
pub open spec fn heard_datagram(t: Terms, b: Seq<u8>, s: Progress) -> Result<
    Progress,
    NetlinkError,
> {
    if b.len() == 0 {
        Err(NetlinkError::EmptyDatagram)
    } else {
        let parts = split(t.order, b);
        match (heard_all(t, parts.0, s), parts.1) {
            (Err(e), _) => Err(e),
            (Ok(_), Some(e)) => Err(e),
            (Ok(next), None) => Ok(next),
        }
    }
}

/// What the reply to one request changes, datagram after datagram.
pub open spec fn heard_reply(t: Terms, d: Seq<Seq<u8>>, s: Progress) -> Result<
    Progress,
    NetlinkError,
>
    decreases d.len(),
{
    if d.len() == 0 {
        Ok(s)
    } else {
        match heard_reply(t, d.drop_last(), s) {
            Err(e) => Err(e),
            Ok(next) => heard_datagram(t, d.last(), next),
        }
    }
}

/// What replies give, one after the other. Each starts with nothing seen.
pub open spec fn after_replies(t: Terms, h: Seq<Reply>) -> Result<Progress, NetlinkError>
    decreases h.len(),
{
    if h.len() == 0 {
        Ok(Progress { prefixes: Set::empty(), saw_route: false, done: true })
    } else {
        match after_replies(t, h.drop_last()) {
            Err(e) => Err(e),
            Ok(s) => heard_reply(
                t.of(h.last()),
                h.last().datagrams,
                Progress { prefixes: s.prefixes, saw_route: false, done: false },
            ),
        }
    }
}

/// The requests that make up a snapshot: every table in each family that counts.
pub open spec fn requests(ipv6: bool, tables: Seq<u32>) -> Seq<(u8, u32)> {
    let v4 = Seq::new(tables.len(), |i: int| (AF_INET, tables[i]));
    if ipv6 {
        v4 + Seq::new(tables.len(), |i: int| (AF_INET6, tables[i]))
    } else {
        v4
    }
}

/// The number after `seq`; zero is left out.
pub open spec fn spec_next_seq(seq: u32) -> u32 {
    if seq == u32::MAX {
        1
    } else {
        (seq + 1) as u32
    }
}

#[verifier::when_used_as_spec(spec_next_seq)]
pub fn next_seq(seq: u32) -> (r: u32)
    ensures
        r == next_seq(seq),
{
    if seq == u32::MAX {
        1
    } else {
        seq + 1
    }
}

/// A snapshot that is being taken: one request at a time, each until its reply
/// is complete.
pub struct Snapshot {
    pub order: ByteOrder,
    pub seq: u32,
    pub ipv6: bool,
    pub tables: Vec<u32>,
    pub limit: usize,
    pub timeout_ms: u64,
    /// How many requests were sent.
    pub sent: usize,
    pub done: bool,
    pub saw_route: bool,
    /// Whether routes changed meanwhile.
    pub changed: bool,
    pub prefixes: Prefixes,
    /// What came in so far.
    pub trace: Ghost<Trace>,
}

impl Snapshot {
    pub open spec fn wf(self) -> bool {
        &&& self.prefixes.wf()
        &&& self.sent <= self.requests().len()
        &&& self.sent == 0 ==> self.done
        &&& self.requests().len() <= usize::MAX
    }

    pub open spec fn requests(self) -> Seq<(u8, u32)> {
        requests(self.ipv6, self.tables@)
    }

    pub open spec fn terms(self) -> Terms {
        Terms {
            order: self.order,
            seq: self.seq,
            tables: self.tables@,
            limit: self.limit as nat,
        }
    }

    pub open spec fn progress(self) -> Progress {
        Progress {
            prefixes: self.prefixes@,
            saw_route: self.saw_route,
            done: self.done,
        }
    }

    /// Every request was sent and its reply is complete.
    pub open spec fn complete(self) -> bool {
        self.done && self.sent == self.requests().len()
    }

    /// The replies are those to the requests so far, in order; each before the last
    /// is complete, and together they give the progress.
    pub open spec fn replies_traced(self) -> bool {
        let h = self.trace@.replies;
        &&& h.len() == self.sent
        &&& forall|i: int|
            0 <= i < h.len() ==> ((#[trigger] h[i]).family, h[i].table) == self.requests()[i]
        &&& forall|i: int, j: int|
            0 <= i && j == i + 1 && j < h.len() ==> (#[trigger] h[j]).seq == next_seq(
                (#[trigger] h[i]).seq,
            )
        &&& h.len() > 0 ==> h.last().seq == self.seq
        &&& after_replies(self.terms(), h) == Ok::<Progress, NetlinkError>(self.progress())
        &&& forall|i: int|
            0 <= i < h.len() ==> (after_replies(self.terms(), #[trigger] h.take(i)) matches Ok(s)
                && s.done)
    }

    /// No noted event tells of a loss, and some tells of a change exactly where one
    /// is known.
    pub open spec fn events_traced(self) -> bool {
        let events = self.trace@.events;
        &&& self.changed <==> exists|i: int| 0 <= i < events.len() && (#[trigger] events[i]).changed
        &&& forall|i: int| 0 <= i < events.len() ==> !(#[trigger] events[i]).lost
    }

    /// What is known is what came in.
    pub open spec fn traced(self) -> bool {
        self.replies_traced() && self.events_traced()
    }

    /// What a complete snapshot gives: the prefixes, and whether routes changed
    /// while it was taken. It gives nothing where notifications were lost.
    pub open spec fn finished(self, events: Events) -> Result<(Prefixes, bool), NetlinkError> {
        if events.lost {
            Err(NetlinkError::LossAfterDump)
        } else {
            Ok((self.prefixes, self.changed || events.changed))
        }
    }

    /// All but the fields that a reply changes.
    pub open spec fn same_setup(self, other: Snapshot) -> bool {
        &&& self.order == other.order
        &&& self.ipv6 == other.ipv6
        &&& self.tables@ == other.tables@
        &&& self.limit == other.limit
        &&& self.timeout_ms == other.timeout_ms
    }

    /// Start a snapshot. `seq` is the number of the last request sent so far.
    pub fn new(cfg: &Config, order: ByteOrder, seq: u32) -> (r: Snapshot)
        requires
            cfg.kernel.tables@.len() * 2 <= usize::MAX,
            cfg.kernel.dump_timeout_secs * 1000 <= u64::MAX,
        ensures
            r.wf(),
            r.order == order,
            r.seq == seq,
            r.ipv6 == cfg.ipv6,
            r.tables@ == cfg.kernel.tables@,
            r.limit == cfg.kernel.max_prefixes,
            r.timeout_ms == cfg.kernel.dump_timeout_secs * 1000,
            r.sent == 0,
            r.done,
            !r.changed,
            r.prefixes@ == Set::<IpNet>::empty(),
            r.trace@ == (Trace { replies: Seq::empty(), events: Seq::empty() }),
            r.traced(),
    {
        let mut tables: Vec<u32> = Vec::new();
        let mut i: usize = 0;
        while i < cfg.kernel.tables.len()
            invariant
                i <= cfg.kernel.tables@.len(),
                tables@ =~= cfg.kernel.tables@.take(i as int),
            decreases cfg.kernel.tables@.len() - i,
        {
            tables.push(cfg.kernel.tables[i]);
            i += 1;
        }
        assert(tables@ =~= cfg.kernel.tables@);
        Snapshot {
            order,
            seq,
            ipv6: cfg.ipv6,
            tables,
            limit: cfg.kernel.max_prefixes,
            timeout_ms: cfg.kernel.dump_timeout_secs * 1000,
            sent: 0,
            done: true,
            saw_route: false,
            changed: false,
            prefixes: Prefixes::new(),
            trace: Ghost(Trace { replies: Seq::empty(), events: Seq::empty() }),
        }
    }

    /// The next request to send, once the last reply is complete; none when
    /// every request has been sent.
    pub fn next_request(&mut self) -> (r: Option<Vec<u8>>)
        requires
            old(self).wf(),
            old(self).done,
        ensures
            final(self).wf(),
            final(self).same_setup(*old(self)),
            final(self).changed == old(self).changed,
            final(self).prefixes@ == old(self).prefixes@,
            r is None <==> old(self).complete(),
            r is None ==> *final(self) == *old(self),
            r matches Some(b) ==> {
                let (family, table) = old(self).requests()[old(self).sent as int];
                &&& final(self).seq == next_seq(old(self).seq)
                &&& final(self).sent == old(self).sent + 1
                &&& !final(self).done
                &&& !final(self).saw_route
                &&& b@ == request_message(old(self).order, final(self).seq, family, table)
                &&& final(self).trace@ == (Trace {
                    replies: old(self).trace@.replies.push(
                        Reply { family, table, seq: final(self).seq, datagrams: Seq::empty() },
                    ),
                    ..old(self).trace@
                })
            },
            old(self).traced() ==> final(self).traced(),
    {
        let n: usize = self.tables.len();
        let v6 = self.sent >= n;
        let all = if self.ipv6 {
            v6 && self.sent - n >= n
        } else {
            v6
        };
        if all {
            return None;
        }
        let family: u8 = if v6 {
            AF_INET6
        } else {
            AF_INET
        };
        let table: u32 = if v6 {
            self.tables[self.sent - n]
        } else {
            self.tables[self.sent]
        };
        self.seq = next_seq(self.seq);
        self.sent = self.sent + 1;
        self.done = false;
        self.saw_route = false;
        self.trace = Ghost(
            Trace {
                replies: self.trace@.replies.push(
                    Reply { family, table, seq: self.seq, datagrams: Seq::empty() },
                ),
                ..self.trace@
            },
        );
        proof {
            if old(self).traced() {
                lemma_request_is_traced(*old(self), *self);
            }
        }
        Some(request(self.order, self.seq, family, table))
    }

    /// Whether to go on: not when stopping, nor past the deadline.
    pub fn check(&self, stopping: bool, elapsed_ms: u64) -> (r: Result<(), NetlinkError>)
        ensures
            r == if stopping {
                Err(NetlinkError::Stopping)
            } else if elapsed_ms >= self.timeout_ms {
                Err(NetlinkError::Deadline)
            } else {
                Ok::<(), NetlinkError>(())
            },
    {
        if stopping {
            Err(NetlinkError::Stopping)
        } else if elapsed_ms >= self.timeout_ms {
            Err(NetlinkError::Deadline)
        } else {
            Ok(())
        }
    }

    /// Take note of notifications that came while the dump runs. Where some were
    /// lost the dump is worth nothing.
    pub fn noticed(&mut self, events: &Events) -> (r: Result<(), NetlinkError>)
        ensures
            events.lost ==> r == Err::<(), NetlinkError>(NetlinkError::LossDuringDump),
            events.lost ==> *final(self) == *old(self),
            !events.lost ==> r is Ok && *final(self) == (Snapshot {
                changed: old(self).changed || events.changed,
                trace: final(self).trace,
                ..*old(self)
            }),
            !events.lost ==> final(self).trace@ == (Trace {
                events: old(self).trace@.events.push(*events),
                ..old(self).trace@
            }),
            old(self).traced() ==> final(self).traced(),
    {
        if events.lost {
            return Err(NetlinkError::LossDuringDump);
        }
        self.changed = self.changed || events.changed;
        self.trace = Ghost(
            Trace { events: self.trace@.events.push(*events), ..self.trace@ },
        );
        proof {
            if old(self).traced() {
                lemma_events_are_traced(*old(self), *self, *events);
            }
        }
        Ok(())
    }

    fn hear(&mut self, m: &Message<'_>) -> (r: Result<(), NetlinkError>)
        requires
            old(self).wf(),
            old(self).sent > 0,
        ensures
            final(self).wf(),
            final(self).same_setup(*old(self)),
            final(self).seq == old(self).seq,
            final(self).sent == old(self).sent,
            final(self).changed == old(self).changed,
            final(self).trace == old(self).trace,
            match heard(old(self).terms(), m@, old(self).progress()) {
                Ok(next) => r is Ok && final(self).progress() == next,
                Err(e) => r == Err::<(), NetlinkError>(e),
            },
    {
        if m.seq != self.seq {
            return Err(NetlinkError::Sequence);
        }
        if m.flags / 0x10 % 2 != 0 {
            return Err(NetlinkError::Interrupted);
        }
        if m.kind == NLMSG_DONE {
            match dump_status_in(self.order, m.payload, self.saw_route) {
                Err(e) => {
                    return Err(e);
                },
                Ok(_) => {
                    self.done = true;
                },
            }
        } else if m.kind == NLMSG_ERROR {
            if m.payload.len() < 4 {
                return Err(NetlinkError::ShortError);
            }
            let e: i32 = errno(self.order.u32n(m.payload));
            if e == ENOENT && !self.saw_route {
                self.done = true;
            } else if e != 0 {
                return Err(NetlinkError::Dump(e));
            }
        } else if m.kind == NLMSG_OVERRUN {
            return Err(NetlinkError::Overrun);
        } else if m.kind == RTM_NEWROUTE {
            self.saw_route = true;
            match route_in(self.order, m.payload, self.tables.as_slice()) {
                Err(e) => {
                    return Err(e);
                },
                Ok(None) => {},
                Ok(Some(p)) => {
                    proof {
                        lemma_route_wf(self.order, m.payload@, self.tables@);
                    }
                    self.prefixes.insert(p);
                    if self.prefixes.len() > self.limit {
                        return Err(NetlinkError::TooManyPrefixes);
                    }
                },
            }
        }
        Ok(())
    }

    /// Take one datagram of the reply to the last request. After an error the
    /// snapshot is worth nothing.
    pub fn datagram(&mut self, bytes: &[u8]) -> (r: Result<(), NetlinkError>)
        requires
            old(self).wf(),
            old(self).sent > 0,
        ensures
            final(self).wf(),
            final(self).same_setup(*old(self)),
            final(self).seq == old(self).seq,
            final(self).sent == old(self).sent,
            final(self).changed == old(self).changed,
            match heard_datagram(old(self).terms(), bytes@, old(self).progress()) {
                Ok(next) => r is Ok && final(self).progress() == next,
                Err(e) => r == Err::<(), NetlinkError>(e),
            },
            r is Ok ==> final(self).trace@ == old(self).trace@.with(bytes@),
            r is Ok && old(self).traced() ==> final(self).traced(),
    {
        if bytes.len() == 0 {
            return Err(NetlinkError::EmptyDatagram);
        }
        let parts = messages_in(self.order, bytes);
        let ghost all = parts@.0;
        let ghost t = self.terms();
        let ghost s = self.progress();
        let mut i: usize = 0;
        assert(all.take(0) =~= Seq::<Envelope>::empty());
        while i < parts.messages.len()
            invariant
                i <= parts.messages@.len(),
                bytes@.len() > 0,
                self.wf(),
                self.sent > 0,
                self.same_setup(*old(self)),
                self.seq == old(self).seq,
                self.sent == old(self).sent,
                self.changed == old(self).changed,
                self.trace == old(self).trace,
                parts@ == split(old(self).order, bytes@),
                all == parts@.0,
                t == old(self).terms(),
                s == old(self).progress(),
                self.terms() == t,
                heard_all(t, all.take(i as int), s) == Ok::<Progress, NetlinkError>(
                    self.progress(),
                ),
            decreases parts.messages@.len() - i,
        {
            let ghost before = self.progress();
            proof {
                assert(all.take(i + 1).drop_last() =~= all.take(i as int));
                assert(all.take(i + 1).last() == parts.messages@[i as int]@);
            }
            match self.hear(&parts.messages[i]) {
                Err(e) => {
                    proof {
                        assert(heard_all(t, all.take(i + 1), s) == Err::<Progress, NetlinkError>(
                            e,
                        ));
                        lemma_heard_error(t, all, s, i + 1);
                    }
                    return Err(e);
                },
                Ok(_) => {},
            }
            i += 1;
        }
        assert(all.take(i as int) =~= all);
        match parts.fault {
            Some(e) => Err(e),
            None => {
                self.trace = Ghost(self.trace@.with(bytes@));
                proof {
                    if old(self).traced() {
                        lemma_datagram_is_traced(*old(self), *self, bytes@);
                    }
                }
                Ok(())
            },
        }
    }

    /// Close a complete snapshot: the prefixes, and whether routes changed while
    /// it was taken.
    pub fn finish(self, events: &Events) -> (r: Result<(Prefixes, bool), NetlinkError>)
        requires
            self.wf(),
            self.complete(),
        ensures
            r == self.finished(*events),
    {
        if events.lost {
            return Err(NetlinkError::LossAfterDump);
        }
        Ok((self.prefixes, self.changed || events.changed))
    }
}

/// What replies give does not depend on the number of the last request.
proof fn lemma_after_replies_seq(a: Terms, b: Terms, h: Seq<Reply>)
    requires
        a.order == b.order,
        a.tables == b.tables,
        a.limit == b.limit,
    ensures
        after_replies(a, h) == after_replies(b, h),
    decreases h.len(),
{
    if h.len() > 0 {
        lemma_after_replies_seq(a, b, h.drop_last());
        assert(a.of(h.last()) == b.of(h.last()));
    }
}

/// A request that is sent after a complete reply starts one without datagrams.
proof fn lemma_request_is_traced(a: Snapshot, b: Snapshot)
    requires
        a.traced(),
        a.done,
        a.sent < a.requests().len(),
        b.same_setup(a),
        b.sent == a.sent + 1,
        b.seq == next_seq(a.seq),
        b.changed == a.changed,
        b.prefixes@ == a.prefixes@,
        !b.done,
        !b.saw_route,
        b.trace@.events == a.trace@.events,
        exists|r: Reply|
            b.trace@.replies == #[trigger] a.trace@.replies.push(r) && r.seq == b.seq
                && r.datagrams.len() == 0 && (r.family, r.table) == a.requests()[a.sent as int],
    ensures
        b.traced(),
{
    let g = a.trace@.replies;
    let h = b.trace@.replies;
    assert(h.drop_last() =~= g);
    lemma_after_replies_seq(a.terms(), b.terms(), g);
    assert(after_replies(b.terms(), h)->Ok_0 =~= b.progress());
    assert forall|i: int| 0 <= i < h.len() implies (after_replies(
        b.terms(),
        #[trigger] h.take(i),
    ) matches Ok(s) && s.done) by {
        if i < g.len() {
            assert(h.take(i) =~= g.take(i));
            lemma_after_replies_seq(a.terms(), b.terms(), g.take(i));
        } else {
            assert(h.take(i) =~= g);
        }
    }
}

/// A datagram that is accepted carries the last reply on.
proof fn lemma_datagram_is_traced(a: Snapshot, b: Snapshot, d: Seq<u8>)
    requires
        a.traced(),
        a.sent > 0,
        b.same_setup(a),
        b.seq == a.seq,
        b.sent == a.sent,
        b.changed == a.changed,
        heard_datagram(a.terms(), d, a.progress()) == Ok::<Progress, NetlinkError>(b.progress()),
        b.trace@ == a.trace@.with(d),
    ensures
        b.traced(),
{
    let g = a.trace@.replies;
    let h = b.trace@.replies;
    assert(b.trace@.events == a.trace@.events);
    assert(b.events_traced());
    assert(a.terms() == b.terms());
    assert(h.drop_last() =~= g.drop_last());
    assert(h.last().datagrams.drop_last() =~= g.last().datagrams);
    assert(a.terms().of(g.last()) == a.terms());
    assert(b.terms().of(h.last()) == a.terms());
    assert(after_replies(b.terms(), h) == Ok::<Progress, NetlinkError>(b.progress()));
    assert forall|i: int| 0 <= i < h.len() implies (after_replies(
        b.terms(),
        #[trigger] h.take(i),
    ) matches Ok(s) && s.done) by {
        assert(h.take(i) =~= g.take(i));
    }
    assert forall|i: int| 0 <= i < h.len() implies ((#[trigger] h[i]).family, h[i].table)
        == b.requests()[i] by {
        assert((g[i].family, g[i].table) == a.requests()[i]);
    }
    assert forall|i: int, j: int| 0 <= i && j == i + 1 && j < h.len() implies (
    #[trigger] h[j]).seq == next_seq((#[trigger] h[i]).seq) by {
        assert(g[j].seq == next_seq(g[i].seq));
    }
}

/// What is noted tells of a change exactly where one is known then.
proof fn lemma_events_are_traced(a: Snapshot, b: Snapshot, e: Events)
    requires
        a.traced(),
        !e.lost,
        b.trace@ == (Trace { events: a.trace@.events.push(e), ..a.trace@ }),
        b == (Snapshot { changed: a.changed || e.changed, trace: b.trace, ..a }),
    ensures
        b.traced(),
{
    let old_events = a.trace@.events;
    let new_events = b.trace@.events;
    if a.changed {
        let i = choose|i: int| 0 <= i < old_events.len() && (#[trigger] old_events[i]).changed;
        assert(new_events[i].changed);
    }
    if e.changed {
        assert(new_events[old_events.len() as int].changed);
    }
    if exists|i: int| 0 <= i < new_events.len() && (#[trigger] new_events[i]).changed {
        let i = choose|i: int| 0 <= i < new_events.len() && (#[trigger] new_events[i]).changed;
        if i < old_events.len() {
            assert(old_events[i].changed);
        }
    }
    assert(b.terms() == a.terms());
    assert(b.progress() == a.progress());
}

/// An error is not undone by what follows it.
proof fn lemma_heard_error(t: Terms, m: Seq<Envelope>, s: Progress, i: int)
    requires
        0 <= i <= m.len(),
        heard_all(t, m.take(i), s) is Err,
    ensures
        heard_all(t, m, s) == heard_all(t, m.take(i), s),
    decreases m.len() - i,
{
    if i == m.len() {
        assert(m.take(i) =~= m);
    } else {
        assert(m.take(i + 1).drop_last() =~= m.take(i));
        lemma_heard_error(t, m, s, i + 1);
    }
}

/// The length of what a route announces fits its family.
pub proof fn lemma_route_wf(order: ByteOrder, payload: Seq<u8>, tables: Seq<u32>)
    ensures
        route_of(order, payload, tables) matches Ok(Some(p)) ==> p.wf(),
{
}

} // verus!
