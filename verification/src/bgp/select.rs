//! Which of two simultaneous connections to a peer is kept.
use vstd::prelude::*;

use crate::addr::Ipv4Addr;
use crate::clock::later;

verus! {

/// How long a connection that is not preferred waits for the other one.
pub const SETTLE_MS: u64 = 500;

/// Whether a connection in this direction is preferred: the speaker with the
/// larger identifier keeps the connection that it initiated.
pub open spec fn preferred(local: Ipv4Addr, remote: Ipv4Addr, incoming: bool) -> bool {
    incoming == (local.bits < remote.bits)
}

/// Two speakers with different identifiers keep the same connection: what is
/// incoming for one is outgoing for the other.
pub proof fn law_both_ends_keep_one_connection(a: Ipv4Addr, b: Ipv4Addr, incoming: bool)
    requires
        a.bits != b.bits,
    ensures
        preferred(a, b, incoming) == preferred(b, a, !incoming),
        preferred(a, b, true) != preferred(a, b, false),
{
}

/// Texts one after the other, with a semicolon and a space between them.
pub open spec fn joined(v: Seq<String>) -> Seq<char>
    decreases v.len(),
{
    if v.len() == 0 {
        Seq::empty()
    } else if v.len() == 1 {
        v[0]@
    } else {
        joined(v.drop_last()) + "; "@ + v.last()@
    }
}

fn append_joined(s: &mut String, v: &Vec<String>)
    ensures
        final(s)@ == old(s)@ + joined(v@),
{
    let ghost start = s@;
    let mut i: usize = 0;
    assert(v@.take(0) =~= Seq::<String>::empty());
    assert(start + joined(v@.take(0)) =~= start);
    while i < v.len()
        invariant
            i <= v@.len(),
            s@ == start + joined(v@.take(i as int)),
        decreases v@.len() - i,
    {
        if i > 0 {
            s.append("; ");
        }
        s.append(v[i].as_str());
        i += 1;
        proof {
            let now = v@.take(i as int);
            assert(now.drop_last() =~= v@.take(i - 1));
            assert(s@ =~= start + joined(now));
        }
    }
    assert(v@.take(i as int) =~= v@);
}

/// What to do after an event.
pub enum Verdict<C> {
    /// Go on waiting.
    Wait,
    /// Use this connection, and close the other one if there is one.
    Use(C, Option<C>),
    /// Give up, for this reason.
    Fail(String),
}

/// Two attempts at a connection, of which one is to be used.
pub struct Selection<C> {
    pub local_id: Ipv4Addr,
    /// How many attempts are under way.
    pub running: u8,
    pub incoming_started: bool,
    /// A connection that is usable but not preferred.
    pub pending: Option<C>,
    pub errors: Vec<String>,
    pub deadline: u64,
}

/// Why a selection fails once its deadline has passed.
pub open spec fn nothing_usable(errors: Seq<String>, incoming_started: bool) -> Seq<char> {
    "no usable BGP connection: "@ + (if errors.len() == 0 {
        "connection attempt still pending at selection deadline"@
    } else {
        joined(errors)
    }) + "; "@ + (if incoming_started {
        "incoming candidate did not establish"@
    } else {
        "no incoming TCP connection received"@
    })
}

impl<C> Selection<C> {
    /// Start with an outgoing attempt.
    pub fn new(local_id: Ipv4Addr, connect_timeout_secs: u64, now: u64) -> (r: Selection<C>)
        requires
            (connect_timeout_secs + 2) * 1000 <= u64::MAX,
        ensures
            r.local_id == local_id,
            r.running == 1,
            !r.incoming_started,
            r.pending is None,
            r.errors@.len() == 0,
            r.deadline == later(now, ((connect_timeout_secs + 2) * 1000) as u64),
    {
        Selection {
            local_id,
            running: 1,
            incoming_started: false,
            pending: None,
            errors: Vec::new(),
            deadline: later(now, (connect_timeout_secs + 2) * 1000),
        }
    }

    /// At most one outgoing and one incoming attempt are under way.
    pub open spec fn wf(self) -> bool {
        self.running <= 1 + if self.incoming_started {
            1int
        } else {
            0
        }
    }

    /// Whether both attempts have ended without a usable connection.
    pub open spec fn exhausted(self) -> bool {
        self.running == 0 && self.pending is None && self.incoming_started
    }

    /// An incoming connection arrived. Only the first one takes part.
    pub fn incoming(&mut self)
        requires
            old(self).wf(),
            !old(self).incoming_started,
        ensures
            final(self).wf(),
            *final(self) == (Selection {
                incoming_started: true,
                running: (old(self).running + 1) as u8,
                ..*old(self)
            }),
    {
        self.incoming_started = true;
        self.running = self.running + 1;
    }

    /// An attempt got as far as the peer's OPEN.
    pub fn opened(&mut self, now: u64, candidate: C, incoming: bool, remote_id: Ipv4Addr) -> (r:
        Verdict<C>)
        requires
            old(self).wf(),
            old(self).running > 0,
        ensures
            final(self).wf(),
            final(self).running == old(self).running - 1,
            final(self).incoming_started == old(self).incoming_started,
            final(self).errors@ == old(self).errors@,
            final(self).local_id == old(self).local_id,
            if preferred(old(self).local_id, remote_id, incoming) {
                &&& r == Verdict::Use(candidate, old(self).pending)
                &&& final(self).pending is None
                &&& final(self).deadline == old(self).deadline
            } else {
                &&& r == Verdict::<C>::Wait
                &&& final(self).pending == Some(candidate)
                &&& final(self).deadline == later(now, SETTLE_MS)
                &&& now + 500 <= u64::MAX ==> final(self).deadline == now + 500
            },
    {
        self.running = self.running - 1;
        let prefer_incoming = self.local_id.bits < remote_id.bits;
        if incoming == prefer_incoming {
            let other = self.pending.take();
            return Verdict::Use(candidate, other);
        }
        self.pending = Some(candidate);
        self.deadline = later(now, SETTLE_MS);
        Verdict::Wait
    }

    /// An attempt failed, for this reason.
    pub fn failed(&mut self, error: String) -> (r: Verdict<C>)
        requires
            old(self).wf(),
            old(self).running > 0,
        ensures
            final(self).wf(),
            final(self).running == old(self).running - 1,
            final(self).incoming_started == old(self).incoming_started,
            final(self).errors@ == old(self).errors@.push(error),
            final(self).local_id == old(self).local_id,
            final(self).pending == old(self).pending,
            final(self).deadline == old(self).deadline,
            if final(self).exhausted() {
                r matches Verdict::Fail(s) && s@ == "both connection candidates failed: "@ + joined(
                    final(self).errors@,
                )
            } else {
                r == Verdict::<C>::Wait
            },
    {
        self.running = self.running - 1;
        self.errors.push(error);
        if self.running == 0 && self.pending.is_none() && self.incoming_started {
            let mut s: String = "both connection candidates failed: ".to_string();
            append_joined(&mut s, &self.errors);
            return Verdict::Fail(s);
        }
        Verdict::Wait
    }

    /// The deadline has passed.
    pub fn expired(self) -> (r: Verdict<C>)
        ensures
            match self.pending {
                Some(c) => r == Verdict::Use(c, None),
                None => r matches Verdict::Fail(s) && s@ == nothing_usable(
                    self.errors@,
                    self.incoming_started,
                ),
            },
    {
        match self.pending {
            Some(c) => Verdict::Use(c, None),
            None => {
                let mut s: String = "no usable BGP connection: ".to_string();
                if self.errors.len() == 0 {
                    s.append("connection attempt still pending at selection deadline");
                } else {
                    append_joined(&mut s, &self.errors);
                }
                s.append("; ");
                if self.incoming_started {
                    s.append("incoming candidate did not establish");
                } else {
                    s.append("no incoming TCP connection received");
                }
                Verdict::Fail(s)
            },
        }
    }

    /// The listener that hands over incoming connections is gone.
    pub fn stopped(self) -> (r: Verdict<C>)
        ensures
            r matches Verdict::Fail(s) && s@ == "incoming listener stopped"@,
    {
        Verdict::Fail("incoming listener stopped".to_string())
    }
}

/// Errors are told in the order in which they came, with a semicolon between them.
pub proof fn law_errors_are_told_in_order(v: Seq<String>, s: String)
    ensures
        joined(seq![s]) == s@,
        v.len() > 0 ==> joined(v.push(s)) == joined(v) + "; "@ + s@,
        joined(Seq::empty()) == Seq::<char>::empty(),
        nothing_usable(v, true) == "no usable BGP connection: "@ + (if v.len() == 0 {
            "connection attempt still pending at selection deadline"@
        } else {
            joined(v)
        }) + "; "@ + "incoming candidate did not establish"@,
        nothing_usable(v, false) == "no usable BGP connection: "@ + (if v.len() == 0 {
            "connection attempt still pending at selection deadline"@
        } else {
            joined(v)
        }) + "; "@ + "no incoming TCP connection received"@,
{
    assert(v.push(s).drop_last() =~= v);
}

/// A selection gives up exactly where no attempt is under way, none is usable, and the
/// peer has had its chance to connect.
pub proof fn law_selection_gives_up<C>(s: Selection<C>)
    ensures
        s.exhausted() <==> s.running == 0 && s.pending is None && s.incoming_started,
{
}

/// A selection starts with one attempt, which it gives the connect timeout and two
/// seconds.
pub proof fn law_selection_starts<C>(id: Ipv4Addr, secs: u64, now: u64, s: Selection<C>)
    requires
        call_ensures(Selection::<C>::new, (id, secs, now), s),
        now + secs * 1000 + 2000 <= u64::MAX,
    ensures
        s.local_id == id && s.running == 1 && !s.incoming_started,
        s.pending is None && s.errors@ == Seq::<String>::empty(),
        s.deadline == now + secs * 1000 + 2000,
{
}

/// A connection that the peer opens is one more attempt, and changes nothing else.
pub proof fn law_incoming_connection_takes_part<C>(s: &mut Selection<C>)
    requires
        call_ensures(Selection::<C>::incoming, (s,), ()),
        old(s).running < u8::MAX,
    ensures
        final(s).incoming_started && final(s).running == old(s).running + 1,
        final(s).local_id == old(s).local_id && final(s).pending == old(s).pending,
        final(s).errors@ == old(s).errors@ && final(s).deadline == old(s).deadline,
{
}

/// The connection that the speaker with the greater identifier opened is used as soon as
/// it is open, and the other one comes with it to be closed. The other one is set aside
/// for half a second.
pub proof fn law_open_connection_is_used_or_set_aside<C>(
    s: &mut Selection<C>,
    now: u64,
    candidate: C,
    incoming: bool,
    remote_id: Ipv4Addr,
    r: Verdict<C>,
)
    requires
        call_ensures(Selection::<C>::opened, (s, now, candidate, incoming, remote_id), r),
    ensures
        final(s).running + 1 == old(s).running,
        final(s).errors@ == old(s).errors@,
        final(s).local_id == old(s).local_id,
        final(s).incoming_started == old(s).incoming_started,
        incoming && old(s).local_id.bits < remote_id.bits ==> r == Verdict::Use(
            candidate,
            old(s).pending,
        ) && final(s).pending is None && final(s).deadline == old(s).deadline,
        !incoming && old(s).local_id.bits > remote_id.bits ==> r == Verdict::Use(
            candidate,
            old(s).pending,
        ) && final(s).pending is None && final(s).deadline == old(s).deadline,
        incoming && old(s).local_id.bits >= remote_id.bits ==> r is Wait && final(s).pending
            == Some(candidate),
        !incoming && old(s).local_id.bits < remote_id.bits ==> r is Wait && final(s).pending
            == Some(candidate),
        r is Wait && now + 500 <= u64::MAX ==> final(s).deadline == now + 500,
{
}

/// Where both connections open, the same one is used whichever was first, and the other
/// one is given back.
pub proof fn law_order_of_opening_does_not_matter<C>(
    first: &mut Selection<C>,
    second: &mut Selection<C>,
    at: u64,
    again: u64,
    ours: C,
    theirs: C,
    remote_id: Ipv4Addr,
    incoming_first: bool,
    r: Verdict<C>,
    last: Verdict<C>,
)
    requires
        *final(first) == *old(second),
        old(first).pending is None,
        call_ensures(
            Selection::<C>::opened,
            (
                first,
                at,
                if incoming_first {
                    theirs
                } else {
                    ours
                },
                incoming_first,
                remote_id,
            ),
            r,
        ),
        r is Wait,
        call_ensures(
            Selection::<C>::opened,
            (
                second,
                again,
                if incoming_first {
                    ours
                } else {
                    theirs
                },
                !incoming_first,
                remote_id,
            ),
            last,
        ),
    ensures
        old(first).local_id.bits < remote_id.bits ==> last == Verdict::Use(theirs, Some(ours)),
        old(first).local_id.bits >= remote_id.bits ==> last == Verdict::Use(ours, Some(theirs)),
        final(second).running + 2 == old(first).running,
{
}

/// A failed attempt leaves its reason behind. The selection fails with all of them once
/// nothing is left that could succeed.
pub proof fn law_failed_attempt_is_remembered<C>(
    s: &mut Selection<C>,
    error: String,
    r: Verdict<C>,
)
    requires
        call_ensures(Selection::<C>::failed, (s, error), r),
    ensures
        final(s).running + 1 == old(s).running,
        final(s).errors@ == old(s).errors@.push(error),
        final(s).pending == old(s).pending && final(s).deadline == old(s).deadline,
        final(s).local_id == old(s).local_id,
        final(s).incoming_started == old(s).incoming_started,
        r is Fail || r is Wait,
        r is Fail <==> old(s).running == 1 && old(s).pending is None && old(s).incoming_started,
        r matches Verdict::Fail(t) ==> t@ == "both connection candidates failed: "@ + (
        if old(s).errors@.len() == 0 {
            error@
        } else {
            joined(old(s).errors@) + "; "@ + error@
        }),
{
    law_errors_are_told_in_order(old(s).errors@, error);
    if old(s).errors@.len() == 0 {
        assert(old(s).errors@.push(error) =~= seq![error]);
    }
}

/// At its deadline a selection uses the connection that was set aside, and fails where
/// none was. It fails too where the listener is gone.
pub proof fn law_deadline_decides<C>(s: Selection<C>, r: Verdict<C>, gone: Verdict<C>)
    requires
        call_ensures(Selection::<C>::expired, (s,), r),
        call_ensures(Selection::<C>::stopped, (s,), gone),
    ensures
        r matches Verdict::Use(c, other) ==> s.pending == Some(c) && other is None,
        r is Fail <==> s.pending is None,
        !(r is Wait),
        r matches Verdict::Fail(t) ==> t@ == "no usable BGP connection: "@ + (if s.errors@.len()
            == 0 {
            "connection attempt still pending at selection deadline"@
        } else {
            joined(s.errors@)
        }) + "; "@ + (if s.incoming_started {
            "incoming candidate did not establish"@
        } else {
            "no incoming TCP connection received"@
        }),
        gone matches Verdict::Fail(t) && t@ == "incoming listener stopped"@,
{
}

} // verus!
