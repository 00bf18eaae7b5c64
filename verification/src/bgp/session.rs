//! The course of one session, and the pause before the next.
use vstd::prelude::*;

use crate::addr::{IpAddr, Ipv6Addr};
use crate::bgp::transmit::next_hops_known;
use crate::clock::later;
use crate::config::config_ok;
use crate::config::{Config, Peer};
use crate::wire::error::fault;
use crate::wire::error::unexpected_is;
use crate::wire::error::Fault;
use crate::wire::error::{err, unexpected, Error, FsmState};
use crate::wire::frame::message;
use crate::wire::frame::notification_body;
use crate::wire::frame::{frame, notification, KEEPALIVE, NOTIFICATION, OPEN, ROUTE_REFRESH, UPDATE};
use crate::wire::open::negotiation;
use crate::wire::open::{parse_open, Negotiated};
use crate::wire::sent::law_message_is_framed;
use crate::wire::sent::law_notification_holds_its_data;
use crate::wire::sent::law_refresh_names_an_exchanged_family;
use crate::wire::validate::refresh_of;
use crate::wire::validate::update_outcome;
use crate::wire::validate::{refresh_family, validate_update};

verus! {

/// An address and the interface that has it.
pub struct Assigned {
    pub interface: String,
    pub address: IpAddr,
}

/// Which address of this router is missing on the peering interface.
#[derive(Clone, Copy, Debug, PartialEq, Eq, Structural)]
pub enum AddressError {
    Local,
    NextHopV4,
    NextHopV6,
    LinkLocal,
}

impl AddressError {
    /// The error as it is logged.
    pub open spec fn text(self, interface: Seq<char>) -> Seq<char> {
        (match self {
            AddressError::Local => "local_address is not assigned to "@,
            AddressError::NextHopV4 => "IPv4 next hop is not assigned to "@,
            AddressError::NextHopV6 => "IPv6 next hop is not assigned to "@,
            AddressError::LinkLocal => "link-local next hop is not assigned to "@,
        }) + interface
    }

    /// Render the error for a log.
    pub fn message(&self, interface: &str) -> (r: String)
        ensures
            r@ == self.text(interface@),
    {
        let start: &'static str = match self {
            AddressError::Local => "local_address is not assigned to ",
            AddressError::NextHopV4 => "IPv4 next hop is not assigned to ",
            AddressError::NextHopV6 => "IPv6 next hop is not assigned to ",
            AddressError::LinkLocal => "link-local next hop is not assigned to ",
        };
        let mut s: String = start.to_string();
        s.append(interface);
        s
    }
}

/// Whether an interface has an address.
pub open spec fn has_address(list: Seq<Assigned>, interface: Seq<char>, a: IpAddr) -> bool {
    exists|i: int|
        0 <= i < list.len() && (#[trigger] list[i]).interface@ == interface && list[i].address == a
}

/// The link-local address of an entry, if it is one on this interface.
pub open spec fn link_local_of(entry: Assigned, interface: Seq<char>) -> Option<Ipv6Addr> {
    match entry.address {
        IpAddr::V6(a) => if entry.interface@ == interface && a.is_unicast_link_local() {
            Some(a)
        } else {
            None
        },
        IpAddr::V4(_) => None,
    }
}

/// The first link-local address of an interface.
pub open spec fn first_link_local(list: Seq<Assigned>, interface: Seq<char>) -> Option<Ipv6Addr>
    decreases list.len(),
{
    if list.len() == 0 {
        None
    } else {
        match first_link_local(list.drop_last(), interface) {
            Some(a) => Some(a),
            None => link_local_of(list.last(), interface),
        }
    }
}

/// What is missing on the peering interface, or its link-local address.
pub open spec fn local_outcome(p: Peer, list: Seq<Assigned>) -> Result<
    Option<Ipv6Addr>,
    AddressError,
> {
    let name = p.interface@;
    if !has_address(list, name, p.local_address) {
        Err(AddressError::Local)
    } else if p.ipv4 && !(p.nh4() matches Some(a) && has_address(list, name, IpAddr::V4(a))) {
        Err(AddressError::NextHopV4)
    } else if p.ipv6 && !(p.nh6() matches Some(a) && has_address(list, name, IpAddr::V6(a))) {
        Err(AddressError::NextHopV6)
    } else if p.next_hop_v6_link_local matches Some(a) && !has_address(
        list,
        name,
        IpAddr::V6(a),
    ) {
        Err(AddressError::LinkLocal)
    } else {
        Ok(first_link_local(list, name))
    }
}

fn find_address(list: &Vec<Assigned>, interface: &String, a: IpAddr) -> (r: bool)
    ensures
        r == has_address(list@, interface@, a),
{
    let mut i: usize = 0;
    while i < list.len()
        invariant
            i <= list@.len(),
            forall|j: int|
                0 <= j < i ==> !((#[trigger] list@[j]).interface@ == interface@ && list@[j].address
                    == a),
        decreases list@.len() - i,
    {
        if list[i].interface == *interface && list[i].address == a {
            return true;
        }
        i += 1;
    }
    false
}

/// Explicit next-hop overrides must still be addresses belonging to this router
/// on the peering interface. Configuration cannot silently become a third-party
/// next hop. Gives the first link-local address of the interface.
pub fn check_local_addresses(p: &Peer, list: &Vec<Assigned>) -> (r: Result<
    Option<Ipv6Addr>,
    AddressError,
>)
    ensures
        r == local_outcome(*p, list@),
{
    if !find_address(list, &p.interface, p.local_address) {
        return Err(AddressError::Local);
    }
    if p.ipv4 {
        let ok = match p.nh4() {
            Some(a) => find_address(list, &p.interface, IpAddr::V4(a)),
            None => false,
        };
        if !ok {
            return Err(AddressError::NextHopV4);
        }
    }
    if p.ipv6 {
        let ok = match p.nh6() {
            Some(a) => find_address(list, &p.interface, IpAddr::V6(a)),
            None => false,
        };
        if !ok {
            return Err(AddressError::NextHopV6);
        }
    }
    match p.next_hop_v6_link_local {
        Some(a) => {
            if !find_address(list, &p.interface, IpAddr::V6(a)) {
                return Err(AddressError::LinkLocal);
            }
        },
        None => {},
    }
    let mut found: Option<Ipv6Addr> = None;
    let mut i: usize = 0;
    while i < list.len()
        invariant
            i <= list@.len(),
            found == first_link_local(list@.take(i as int), p.interface@),
        decreases list@.len() - i,
    {
        proof {
            assert(list@.take(i + 1).drop_last() =~= list@.take(i as int));
        }
        if found.is_none() && list[i].interface == p.interface {
            match list[i].address {
                IpAddr::V6(a) => {
                    if a.is_unicast_link_local() {
                        found = Some(a);
                    }
                },
                IpAddr::V4(_) => {},
            }
        }
        i += 1;
    }
    assert(list@.take(i as int) =~= list@);
    Ok(found)
}

/// The link-local next hop of a session: the configured one, or the one found
/// where IPv6 is exchanged.
pub open spec fn spec_link_local_next_hop(p: &Peer, found: Option<Ipv6Addr>) -> Option<Ipv6Addr> {
    if p.ipv6 && p.next_hop_v6_link_local is None {
        found
    } else {
        p.next_hop_v6_link_local
    }
}

#[verifier::when_used_as_spec(spec_link_local_next_hop)]
pub fn link_local_next_hop(p: &Peer, found: Option<Ipv6Addr>) -> (r: Option<Ipv6Addr>)
    ensures
        r == link_local_next_hop(p, found),
{
    if p.ipv6 && p.next_hop_v6_link_local.is_none() {
        found
    } else {
        p.next_hop_v6_link_local
    }
}

/// What a result says, where a protocol error is what these bytes were found to be.
pub open spec fn answers<T>(r: Result<T, Error>, spec: Result<T, Fault>) -> bool {
    match (r, spec) {
        (Ok(a), Ok(b)) => a == b,
        (Err(Error::Protocol(e)), Err(f)) => e@ == f,
        _ => false,
    }
}

/// Judge the first message of a peer, which has to be its OPEN.
pub fn opened(kind: u8, body: &[u8], cfg: &Config, p: &Peer) -> (r: Result<Negotiated, Error>)
    ensures
        kind == OPEN ==> answers(r, negotiation(body@, *cfg, *p)),
        kind != OPEN ==> (r matches Err(e) && unexpected_is(FsmState::OpenSent, kind, body@, e)),
{
    if kind != OPEN {
        return Err(unexpected(FsmState::OpenSent, kind, body));
    }
    match parse_open(body, cfg, p) {
        Ok(n) => Ok(n),
        Err(e) => Err(Error::Protocol(e)),
    }
}

/// What the peer is told of an error: a protocol error is reported, others are not.
pub fn report(e: &Error) -> (r: Option<Vec<u8>>)
    ensures
        match *e {
            Error::Protocol(p) => r matches Some(b) && b@ == message(
                NOTIFICATION,
                notification_body(p.code, p.subcode, p.data@),
            ),
            Error::Other(_) => r is None,
        },
{
    match e {
        Error::Protocol(p) => Some(notification(p.code, p.subcode, p.data.as_slice())),
        Error::Other(_) => None,
    }
}

/// What a peer whose connection is not needed is told: connection collision
/// resolution.
pub fn redundant() -> (r: Vec<u8>)
    ensures
        r@ == message(NOTIFICATION, notification_body(6, 7, Seq::empty())),
{
    let empty: Vec<u8> = Vec::new();
    let packet = notification(6, 7, empty.as_slice());
    assert(empty@ =~= Seq::<u8>::empty());
    packet
}

/// What an established session accepts.
pub enum Heard {
    /// The peer is alive; the hold timer starts anew.
    Alive,
    /// The peer asks for everything again, or for a family that is not exchanged.
    Refresh(bool),
}

/// What a message means in an established session.
pub open spec fn heard_is(
    kind: u8,
    body: Seq<u8>,
    n: Negotiated,
    r: Result<Heard, Error>,
) -> bool {
    if kind == KEEPALIVE {
        r == Ok::<Heard, Error>(Heard::Alive)
    } else if kind == UPDATE {
        match update_outcome(body, n) {
            Ok(_) => r == Ok::<Heard, Error>(Heard::Alive),
            Err(f) => r matches Err(Error::Protocol(e)) && e@ == f,
        }
    } else if kind == ROUTE_REFRESH {
        if body.len() == 4 {
            r == Ok::<Heard, Error>(Heard::Refresh(refresh_of(body, n) is Some))
        } else {
            r matches Err(Error::Other(s)) && s@ == "invalid ROUTE-REFRESH length"@
        }
    } else {
        r matches Err(e) && unexpected_is(FsmState::Established, kind, body, e)
    }
}

/// Judge a message in an established session. Routes are checked and discarded.
pub fn heard(kind: u8, body: &[u8], n: &Negotiated) -> (r: Result<Heard, Error>)
    ensures
        heard_is(kind, body@, *n, r),
{
    if kind == KEEPALIVE {
        Ok(Heard::Alive)
    } else if kind == UPDATE {
        match validate_update(body, n) {
            Ok(_) => Ok(Heard::Alive),
            Err(e) => Err(Error::Protocol(e)),
        }
    } else if kind == ROUTE_REFRESH {
        match refresh_family(body, n) {
            Ok(f) => Ok(Heard::Refresh(f.is_some())),
            Err(e) => Err(e),
        }
    } else {
        Err(unexpected(FsmState::Established, kind, body))
    }
}

/// The receiving side of an established session.
#[derive(Clone, Copy, Debug, PartialEq, Eq, Structural)]
pub struct HoldTimer {
    pub hold: u16,
    pub expires: u64,
}

impl HoldTimer {
    /// The timer after a message that proves the peer alive.
    pub open spec fn restarted(self, now: u64) -> HoldTimer {
        HoldTimer { expires: later(now, (self.hold * 1000) as u64), ..self }
    }

    /// Start the timer.
    pub fn new(hold: u16, now: u64) -> (r: HoldTimer)
        ensures
            r.hold == hold,
            r == r.restarted(now),
    {
        HoldTimer { hold, expires: later(now, hold as u64 * 1000) }
    }

    /// Take note of a message. Only what proves the peer alive restarts the timer.
    pub fn note(&mut self, now: u64, heard: &Heard)
        ensures
            *final(self) == match *heard {
                Heard::Alive => old(self).restarted(now),
                Heard::Refresh(_) => *old(self),
            },
    {
        match heard {
            Heard::Alive => {
                self.expires = later(now, self.hold as u64 * 1000);
            },
            Heard::Refresh(_) => {},
        }
    }
}

/// How far a session has come.
#[derive(Clone, Copy, Debug, PartialEq, Eq, Structural)]
pub enum Stage {
    /// The peer's OPEN was accepted; its KEEPALIVE is awaited.
    OpenConfirm,
    Established,
    Closed,
}

/// What an event leads to.
pub enum Reaction {
    /// Read on.
    Continue,
    /// The session is up: start to advertise.
    Established,
    /// The peer asks for everything again.
    Refresh,
    /// The session is over; see [`report`] for what the peer is told.
    Close(Error),
}

/// A session after both OPENs were exchanged.
pub struct Session {
    pub n: Negotiated,
    pub stage: Stage,
    pub confirm_by: u64,
    pub timer: HoldTimer,
}

/// What a message leads to in a stage.
pub open spec fn reaction_is(
    stage: Stage,
    n: Negotiated,
    kind: u8,
    body: Seq<u8>,
    r: Reaction,
) -> bool {
    match stage {
        Stage::OpenConfirm => if kind == KEEPALIVE {
            r is Established
        } else {
            r matches Reaction::Close(e) && unexpected_is(FsmState::OpenConfirm, kind, body, e)
        },
        Stage::Established => match r {
            Reaction::Continue => heard_is(kind, body, n, Ok(Heard::Alive)) || heard_is(
                kind,
                body,
                n,
                Ok(Heard::Refresh(false)),
            ),
            Reaction::Refresh => heard_is(kind, body, n, Ok(Heard::Refresh(true))),
            Reaction::Close(e) => heard_is(kind, body, n, Err(e)),
            Reaction::Established => false,
        },
        Stage::Closed => r is Continue,
    }
}

/// What confirms the peer's OPEN.
pub fn confirmation() -> (r: Vec<u8>)
    ensures
        r@ == message(KEEPALIVE, Seq::empty()),
{
    let empty: Vec<u8> = Vec::new();
    let packet = frame(KEEPALIVE, empty.as_slice());
    assert(empty@ =~= Seq::<u8>::empty());
    packet
}

impl Session {
    /// Both OPENs were exchanged and the peer's was confirmed: await its
    /// confirmation.
    pub fn start(n: Negotiated, p: &Peer, now: u64) -> (r: Session)
        requires
            p.connect_timeout_secs * 1000 <= u64::MAX,
        ensures
            r.n == n,
            r.stage == Stage::OpenConfirm,
            r.timer.hold == n.hold,
            r.confirm_by == later(
                now,
                if n.hold == 0 {
                    (p.connect_timeout_secs * 1000) as u64
                } else {
                    (n.hold * 1000) as u64
                },
            ),
    {
        let wait: u64 = if n.hold == 0 {
            p.connect_timeout_secs * 1000
        } else {
            n.hold as u64 * 1000
        };
        Session {
            n,
            stage: Stage::OpenConfirm,
            confirm_by: later(now, wait),
            timer: HoldTimer::new(n.hold, now),
        }
    }

    /// How long the next message is awaited; for ever where there is no hold time.
    pub fn deadline(&self) -> (r: Option<u64>)
        ensures
            r == match self.stage {
                Stage::OpenConfirm => Some(self.confirm_by),
                Stage::Established => if self.n.hold == 0 {
                    None
                } else {
                    Some(self.timer.expires)
                },
                Stage::Closed => None,
            },
    {
        match self.stage {
            Stage::OpenConfirm => Some(self.confirm_by),
            Stage::Established => if self.n.hold == 0 {
                None
            } else {
                Some(self.timer.expires)
            },
            Stage::Closed => None,
        }
    }

    /// Take a message. Established, every KEEPALIVE and every acceptable UPDATE
    /// starts the hold timer anew; a refresh request does not.
    pub fn message(&mut self, now: u64, kind: u8, body: &[u8]) -> (r: Reaction)
        requires
            old(self).timer.hold == old(self).n.hold,
        ensures
            reaction_is(old(self).stage, old(self).n, kind, body@, r),
            final(self).n == old(self).n,
            final(self).confirm_by == old(self).confirm_by,
            final(self).timer.hold == old(self).timer.hold,
            final(self).stage == match r {
                Reaction::Established => Stage::Established,
                Reaction::Close(_) => Stage::Closed,
                _ => old(self).stage,
            },
            final(self).timer == if r is Established || (r is Continue && old(self).stage
                == Stage::Established && kind != ROUTE_REFRESH) {
                old(self).timer.restarted(now)
            } else {
                old(self).timer
            },
    {
        match self.stage {
            Stage::OpenConfirm => {
                if kind == KEEPALIVE {
                    self.stage = Stage::Established;
                    self.timer = HoldTimer::new(self.n.hold, now);
                    return Reaction::Established;
                }
                self.stage = Stage::Closed;
                Reaction::Close(unexpected(FsmState::OpenConfirm, kind, body))
            },
            Stage::Established => {
                match heard(kind, body, &self.n) {
                    Ok(h) => {
                        self.timer.note(now, &h);
                        match h {
                            Heard::Alive => Reaction::Continue,
                            Heard::Refresh(true) => Reaction::Refresh,
                            Heard::Refresh(false) => Reaction::Continue,
                        }
                    },
                    Err(e) => {
                        self.stage = Stage::Closed;
                        Reaction::Close(e)
                    },
                }
            },
            Stage::Closed => Reaction::Continue,
        }
    }

    /// The deadline passed without a message.
    pub fn timeout(&mut self) -> (r: Reaction)
        ensures
            match old(self).stage {
                Stage::OpenConfirm => r matches Reaction::Close(Error::Protocol(e)) && e@ == fault(
                    if old(self).n.hold == 0 {
                        5
                    } else {
                        4
                    },
                    0,
                    "OpenConfirm timeout"@,
                ),
                Stage::Established => r matches Reaction::Close(Error::Protocol(e)) && e@ == fault(
                    4,
                    0,
                    "hold timer expired"@,
                ),
                Stage::Closed => r is Continue,
            },
            *final(self) == (Session { stage: Stage::Closed, ..*old(self) }),
    {
        let before = self.stage;
        self.stage = Stage::Closed;
        match before {
            Stage::OpenConfirm => {
                let code: u8 = if self.n.hold == 0 {
                    5
                } else {
                    4
                };
                Reaction::Close(Error::Protocol(err(code, 0, "OpenConfirm timeout")))
            },
            Stage::Established => Reaction::Close(
                Error::Protocol(err(4, 0, "hold timer expired")),
            ),
            Stage::Closed => Reaction::Continue,
        }
    }
}

/// The hold timer runs out the hold time after the last proof that the peer is alive.
pub proof fn law_hold_timer_is_kept(t: HoldTimer, now: u64)
    ensures
        t.restarted(now).hold == t.hold,
        now + t.hold * 1000 <= u64::MAX ==> t.restarted(now).expires - now == t.hold * 1000,
{
}

/// A valid configuration knows a next hop for every family that a session of one
/// of its peers can exchange.
pub proof fn law_negotiated_families_have_next_hops(c: Config, i: int, body: Seq<u8>)
    requires
        config_ok(c),
        0 <= i < c.peers@.len(),
    ensures
        negotiation(body, c, c.peers@[i]) matches Ok(n) ==> next_hops_known(n, c.peers@[i]),
{
}

/// What an established session makes of a message. A keepalive and an UPDATE that is no
/// fault show that the peer lives; a refresh is passed on exactly where it asks for
/// unicast of a family that is exchanged; an UPDATE with a fault ends the session with
/// that fault, and so does any other message.
pub proof fn law_established_session_hears(
    kind: u8,
    body: Seq<u8>,
    n: Negotiated,
    r: Result<Heard, Error>,
)
    requires
        heard_is(kind, body, n, r),
    ensures
        kind == 4 ==> r == Ok::<Heard, Error>(Heard::Alive),
        kind == 2 && update_outcome(body, n) is Ok ==> r == Ok::<Heard, Error>(Heard::Alive),
        kind == 2 ==> (update_outcome(body, n) matches Err(f) ==> (r matches Err(
            Error::Protocol(e),
        ) && e.code == f.code && e.subcode == f.subcode && e.data@ == f.data)),
        kind == 5 && body.len() == 4 ==> (r matches Ok(Heard::Refresh(b)) && (b <==> (body == seq![
            0u8,
            1,
            0,
            1,
        ] && n.ipv4) || (body == seq![0u8, 2, 0, 1] && n.ipv6))),
        kind == 5 && body.len() != 4 ==> r matches Err(Error::Other(_)),
        kind == 3 ==> r matches Err(Error::Other(_)),
        kind != 2 && kind != 3 && kind != 4 && kind != 5 ==> (r matches Err(Error::Protocol(e))
            && e.code == 5 && e.subcode == 3 && e.data@ == seq![kind]),
{
    if kind == 5 && body.len() == 4 {
        law_refresh_names_an_exchanged_family(body, n);
    }
}

/// What a session does with a message at each stage: a keepalive confirms it, and
/// anything else before that ends it; once it is up it goes on, passes a refresh on, or
/// ends; once it is over nothing matters.
pub proof fn law_session_reacts(stage: Stage, n: Negotiated, kind: u8, body: Seq<u8>, r: Reaction)
    requires
        reaction_is(stage, n, kind, body, r),
    ensures
        stage is OpenConfirm && kind == 4 ==> r is Established,
        stage is OpenConfirm && kind != 4 ==> (r matches Reaction::Close(e) && (kind == 3
            <==> e is Other) && (e matches Error::Protocol(p) ==> p.code == 5 && p.subcode == 2
            && p.data@ == seq![kind])),
        stage is Established && kind == 4 ==> r is Continue,
        stage is Established && kind == 2 && update_outcome(body, n) is Ok ==> r is Continue,
        stage is Established && kind == 2 && update_outcome(body, n) is Err ==> r is Close,
        stage is Established && kind == 5 && body.len() == 4 ==> if (body == seq![0u8, 1, 0, 1]
            && n.ipv4) || (body == seq![0u8, 2, 0, 1] && n.ipv6) {
            r is Refresh
        } else {
            r is Continue
        },
        stage is Established && (kind == 3 || kind == 1 || kind > 5 || kind == 0) ==> r is Close,
        stage is Closed ==> r is Continue,
{
    if stage is Established {
        if kind == 5 && body.len() == 4 {
            law_refresh_names_an_exchanged_family(body, n);
        }
    }
}

/// A session can start where every address that it needs is assigned to its interface:
/// the local one, the next hop of each family that is enabled, and the link-local next
/// hop where one is set. What is missing is named, in this order.
pub proof fn law_session_needs_its_addresses(p: Peer, list: Seq<Assigned>)
    ensures
        ({
            let r = local_outcome(p, list);
            let there = |a: IpAddr|
                exists|i: int|
                    0 <= i < list.len() && (#[trigger] list[i]).interface@ == p.interface@
                        && list[i].address == a;
            let v4 = p.ipv4 ==> (p.nh4() matches Some(a) && there(IpAddr::V4(a)));
            let v6 = p.ipv6 ==> (p.nh6() matches Some(a) && there(IpAddr::V6(a)));
            let link = p.next_hop_v6_link_local matches Some(a) ==> there(IpAddr::V6(a));
            &&& r is Ok <==> there(p.local_address) && v4 && v6 && link
            &&& r == Err::<Option<Ipv6Addr>, AddressError>(AddressError::Local) <==> !there(
                p.local_address,
            )
            &&& r == Err::<Option<Ipv6Addr>, AddressError>(AddressError::NextHopV4) <==> there(
                p.local_address,
            ) && !v4
            &&& r == Err::<Option<Ipv6Addr>, AddressError>(AddressError::NextHopV6) <==> there(
                p.local_address,
            ) && v4 && !v6
            &&& r == Err::<Option<Ipv6Addr>, AddressError>(AddressError::LinkLocal) <==> there(
                p.local_address,
            ) && v4 && v6 && !link
        }),
{
    let there = |a: IpAddr|
        exists|i: int|
            0 <= i < list.len() && (#[trigger] list[i]).interface@ == p.interface@
                && list[i].address == a;
    assert forall|a: IpAddr| there(a) == has_address(list, p.interface@, a) by {}
}

/// The link-local address that is found is the first one of the interface.
pub proof fn law_first_link_local_is_found(list: Seq<Assigned>, interface: Seq<char>, i: int)
    requires
        0 <= i < list.len(),
        list[i].interface@ == interface,
        list[i].address matches IpAddr::V6(a) && 0xfe80_0000_0000_0000_0000_0000_0000_0000 <= a.bits
            < 0xfec0_0000_0000_0000_0000_0000_0000_0000,
        forall|j: int|
            0 <= j < i && (#[trigger] list[j]).interface@ == interface ==> !(
            list[j].address matches IpAddr::V6(a) && 0xfe80_0000_0000_0000_0000_0000_0000_0000
                <= a.bits < 0xfec0_0000_0000_0000_0000_0000_0000_0000),
    ensures
        first_link_local(list, interface) matches Some(a) && list[i].address == IpAddr::V6(a),
    decreases list.len(),
{
    let rest = list.drop_last();
    if i < list.len() - 1 {
        law_first_link_local_is_found(rest, interface, i);
    } else {
        lemma_no_link_local(rest, interface);
    }
}

proof fn lemma_no_link_local(list: Seq<Assigned>, interface: Seq<char>)
    requires
        forall|j: int|
            0 <= j < list.len() && (#[trigger] list[j]).interface@ == interface ==> !(
            list[j].address matches IpAddr::V6(a) && 0xfe80_0000_0000_0000_0000_0000_0000_0000
                <= a.bits < 0xfec0_0000_0000_0000_0000_0000_0000_0000),
    ensures
        first_link_local(list, interface) is None,
    decreases list.len(),
{
    if list.len() > 0 {
        assert(list[list.len() - 1] == list.last());
        lemma_no_link_local(list.drop_last(), interface);
    }
}

/// The link-local next hop is the one that is set, else the one that was found where
/// IPv6 is enabled. A hold timer runs for the hold time from the last sign of life.
pub proof fn law_session_settings(p: &Peer, found: Option<Ipv6Addr>, t: HoldTimer, now: u64)
    ensures
        p.next_hop_v6_link_local is Some ==> link_local_next_hop(p, found)
            == p.next_hop_v6_link_local,
        p.next_hop_v6_link_local is None && p.ipv6 ==> link_local_next_hop(p, found) == found,
        p.next_hop_v6_link_local is None && !p.ipv6 ==> link_local_next_hop(p, found) is None,
        now <= 0xffff_ffff_0000_0000 ==> t.restarted(now).expires == now + t.hold * 1000,
        t.restarted(now).hold == t.hold,
{
}

/// A session waits for its confirmation as long as for any later message, and where the
/// hold time is zero as long as for a connection.
pub proof fn law_session_starts(n: Negotiated, p: &Peer, now: u64, s: Session)
    requires
        call_ensures(Session::start, (n, p, now), s),
        now + p.connect_timeout_secs * 1000 <= u64::MAX,
        now + n.hold * 1000 <= u64::MAX,
    ensures
        s.n == n && s.stage is OpenConfirm && s.timer.hold == n.hold,
        n.hold > 0 ==> s.confirm_by == now + n.hold * 1000,
        n.hold == 0 ==> s.confirm_by == now + p.connect_timeout_secs * 1000,
{
}

/// Only a session that is up without a hold time, or over, waits for ever.
pub proof fn law_session_waits(s: &Session, r: Option<u64>)
    requires
        call_ensures(Session::deadline, (s,), r),
    ensures
        s.stage is OpenConfirm ==> r == Some(s.confirm_by),
        s.stage is Established && s.n.hold > 0 ==> r == Some(s.timer.expires),
        r is None <==> s.stage is Closed || (s.stage is Established && s.n.hold == 0),
{
}

/// A keepalive and an UPDATE without a fault give an established session a whole hold
/// time more. A refresh gives it none, and neither does anything before the session is
/// up, but for the keepalive that confirms it. What was agreed stays agreed.
pub proof fn law_message_moves_a_session(
    s: &mut Session,
    now: u64,
    kind: u8,
    body: &[u8],
    r: Reaction,
)
    requires
        call_ensures(Session::message, (s, now, kind, body), r),
        now + old(s).timer.hold * 1000 <= u64::MAX,
    ensures
        final(s).n == old(s).n && final(s).confirm_by == old(s).confirm_by,
        final(s).timer.hold == old(s).timer.hold,
        old(s).stage is OpenConfirm && kind == 4 ==> final(s).stage is Established && r
            is Established && final(s).timer.expires == now + old(s).timer.hold * 1000,
        old(s).stage is OpenConfirm && kind != 4 ==> final(s).stage is Closed && r is Close,
        old(s).stage is Established && kind == 4 ==> final(s).stage is Established && r is Continue
            && final(s).timer.expires == now + old(s).timer.hold * 1000,
        old(s).stage is Established && kind == 2 && update_outcome(body@, old(s).n) is Ok
            ==> final(s).stage is Established && r is Continue && final(s).timer.expires == now
            + old(s).timer.hold * 1000,
        old(s).stage is Established && kind == 2 && update_outcome(body@, old(s).n) is Err
            ==> final(s).stage is Closed && r is Close,
        old(s).stage is Established && kind == 5 && body@.len() == 4 ==> final(s).stage
            is Established && final(s).timer == old(s).timer && (r is Refresh || r is Continue),
        old(s).stage is Established && kind == 5 && body@.len() != 4 ==> final(s).stage is Closed
            && r is Close,
        old(s).stage is Established && (kind < 2 || kind == 3 || kind > 5) ==> final(s).stage
            is Closed && r is Close,
        old(s).stage is Closed ==> *final(s) == *old(s) && r is Continue,
{
    if old(s).stage is Established && kind == 5 && body@.len() == 4 {
        law_refresh_names_an_exchanged_family(body@, old(s).n);
    }
}

/// A session whose deadline passes is over. The peer is told that its hold time ran out,
/// or, where there was none to run out, that the session never came up.
pub proof fn law_silence_ends_a_session(s: &mut Session, r: Reaction)
    requires
        call_ensures(Session::timeout, (s,), r),
    ensures
        final(s).stage is Closed,
        final(s).n == old(s).n && final(s).timer == old(s).timer,
        final(s).confirm_by == old(s).confirm_by,
        old(s).stage is Closed <==> r is Continue,
        !(r is Refresh) && !(r is Established),
        r matches Reaction::Close(e) ==> (e matches Error::Protocol(p) && p.subcode == 0
            && p.data@.len() == 0 && (p.code == 4 || p.code == 5) && (p.code == 5 <==> (
        old(s).stage is OpenConfirm && old(s).n.hold == 0)) && p.reason@ == if old(s).stage is OpenConfirm {
            "OpenConfirm timeout"@
        } else {
            "hold timer expired"@
        }),
{
}

/// A timer starts with a whole hold time, and a sign of life gives it another.
pub proof fn law_sign_of_life_restarts_the_timer(
    hold: u16,
    start: u64,
    t: HoldTimer,
    timer: &mut HoldTimer,
    now: u64,
    heard: &Heard,
)
    requires
        call_ensures(HoldTimer::new, (hold, start), t),
        call_ensures(HoldTimer::note, (timer, now, heard), ()),
        *old(timer) == t,
        start + hold * 1000 <= u64::MAX,
        now + hold * 1000 <= u64::MAX,
    ensures
        final(timer).hold == hold,
        *heard is Alive ==> final(timer).expires == now + hold * 1000,
        *heard is Refresh ==> final(timer).expires == start + hold * 1000,
{
}

/// A peer is told of a fault by its code, its subcode and its data, and of nothing else.
/// A connection that is not needed is answered by a cease, and an OPEN by a keepalive.
pub proof fn law_peer_is_told(
    e: &Error,
    r: Option<Vec<u8>>,
    surplus: Vec<u8>,
    answer: Vec<u8>,
    i: int,
)
    requires
        call_ensures(report, (e,), r),
        call_ensures(redundant, (), surplus),
        call_ensures(confirmation, (), answer),
    ensures
        r is Some <==> e is Protocol,
        *e matches Error::Protocol(p) ==> (r matches Some(b) && b@[18] == 3 && b@[19] == p.code
            && b@[20] == p.subcode && (p.data@.len() <= 4075 ==> b@.skip(21) =~= p.data@)),
        surplus@.len() == 21 && surplus@[18] == 3 && surplus@[19] == 6 && surplus@[20] == 7,
        answer@.len() == 19 && answer@[18] == 4,
        0 <= i < 16 ==> answer@[i] == 255 && surplus@[i] == 255,
{
    let none = Seq::<u8>::empty();
    law_notification_holds_its_data(6, 7, none, 0);
    law_message_is_framed(3, notification_body(6, 7, none), i);
    law_message_is_framed(4, none, i);
    let b = notification_body(6, 7, none);
    assert(surplus@.skip(19) =~= b);
    assert(surplus@[19] == surplus@.skip(19)[0] && surplus@[20] == surplus@.skip(19)[1]);
    if let Error::Protocol(p) = *e {
        let body = notification_body(p.code, p.subcode, p.data@);
        law_notification_holds_its_data(p.code, p.subcode, p.data@, 0);
        law_message_is_framed(3, body, i);
        let b = r->0@;
        assert(b.skip(19) =~= body);
        assert(b[19] == b.skip(19)[0] && b[20] == b.skip(19)[1]);
        if p.data@.len() <= 4075 {
            assert forall|k: int| 0 <= k < p.data@.len() implies b.skip(21)[k] == p.data@[k] by {
                law_notification_holds_its_data(p.code, p.subcode, p.data@, k);
                assert(b.skip(21)[k] == b.skip(19)[2 + k]);
            }
        }
    }
}

/// Until the peer's OPEN has come, nothing else will do.
pub proof fn law_open_is_awaited(
    kind: u8,
    body: &[u8],
    cfg: &Config,
    p: &Peer,
    r: Result<Negotiated, Error>,
)
    requires
        call_ensures(opened, (kind, body, cfg, p), r),
    ensures
        kind == 1 ==> (r is Ok <==> negotiation(body@, *cfg, *p) is Ok),
        kind == 1 ==> (r matches Ok(n) ==> negotiation(body@, *cfg, *p) == Ok::<Negotiated, Fault>(
            n,
        )),
        kind == 1 ==> (r matches Err(e) ==> (e matches Error::Protocol(f) && negotiation(
            body@,
            *cfg,
            *p,
        ) == Err::<Negotiated, Fault>(f@))),
        kind == 3 ==> r matches Err(Error::Other(_)),
        kind != 1 && kind != 3 ==> (r matches Err(Error::Protocol(f)) && f.code == 5 && f.subcode
            == 1 && f.data@ == seq![kind]),
{
}

/// What is found on the interface of a session is its first link-local address, whatever
/// other interfaces have; and there is one where there is any.
pub proof fn law_link_local_address_is_found(
    p: &Peer,
    list: &Vec<Assigned>,
    r: Result<Option<Ipv6Addr>, AddressError>,
    i: int,
)
    requires
        call_ensures(check_local_addresses, (p, list), r),
        r is Ok,
        0 <= i < list@.len(),
        list@[i].interface@ == p.interface@,
        list@[i].address matches IpAddr::V6(a) && 0xfe80_0000_0000_0000_0000_0000_0000_0000
            <= a.bits < 0xfec0_0000_0000_0000_0000_0000_0000_0000,
        forall|j: int|
            0 <= j < i && (#[trigger] list@[j]).interface@ == p.interface@ ==> !(
            list@[j].address matches IpAddr::V6(a) && 0xfe80_0000_0000_0000_0000_0000_0000_0000
                <= a.bits < 0xfec0_0000_0000_0000_0000_0000_0000_0000),
    ensures
        r matches Ok(Some(a)) && list@[i].address == IpAddr::V6(a),
{
    law_first_link_local_is_found(list@, p.interface@, i);
}

/// A session without a link-local address on its interface has none to tell.
pub proof fn law_link_local_address_is_none(
    p: &Peer,
    list: &Vec<Assigned>,
    r: Result<Option<Ipv6Addr>, AddressError>,
)
    requires
        call_ensures(check_local_addresses, (p, list), r),
        forall|j: int|
            0 <= j < list@.len() && (#[trigger] list@[j]).interface@ == p.interface@ ==> !(
            list@[j].address matches IpAddr::V6(a) && 0xfe80_0000_0000_0000_0000_0000_0000_0000
                <= a.bits < 0xfec0_0000_0000_0000_0000_0000_0000_0000),
    ensures
        !(r matches Ok(Some(_))),
{
    lemma_no_link_local(list@, p.interface@);
}

} // verus!
