//! What a dump gives, whatever the kernel sends.
use vstd::prelude::*;

use crate::addr::IpAddr;
use crate::bytes::{be, be_value, lemma_be_len, lemma_be_value_of_be, lemma_pow256_small, ByteOrder};
use crate::net::{law_trunc_is_idempotent, IpNet};
use crate::netlink::dump::{
    after_replies, errno, heard, heard_all, heard_datagram, heard_reply, status_of, Progress, Reply, Snapshot, Terms,
    ENOENT,
};
use crate::netlink::event::Events;
use crate::netlink::message::{
    align, split, zeros, Envelope, NetlinkError, AF_INET, AF_INET6, NLMSG_DONE, NLMSG_ERROR,
    NLMSG_OVERRUN, RTA_DST, RTA_TABLE, RTM_NEWROUTE,
};
use crate::netlink::route::{attribute, attributes, family_width, ordinary, route_of, Found};

verus! {

/// The kernel's number for the family of an address.
pub open spec fn family_of(a: IpAddr) -> u8 {
    if a.is_ipv4() {
        AF_INET
    } else {
        AF_INET6
    }
}

/// One attribute as the kernel writes it, where no padding is needed.
pub open spec fn attribute_octets(order: ByteOrder, kind: u16, value: Seq<u8>) -> Seq<u8> {
    order.bytes((value.len() + 4) as nat, 2) + order.bytes(kind as nat, 2) + value
}

/// The header of a route of this type.
pub open spec fn route_header(p: IpNet, kind: u8) -> Seq<u8> {
    seq![family_of(p.addr), p.prefix_len, 0u8, 0u8, 0u8, 0u8, 0u8, kind] + zeros(4)
}

/// The octets of an address.
pub open spec fn address_octets(a: IpAddr) -> Seq<u8> {
    be(a.value() as nat, family_width(family_of(a)))
}

/// A route of this type in a table, as the kernel writes it.
pub open spec fn route_message(order: ByteOrder, table: u32, p: IpNet, kind: u8) -> Seq<u8> {
    route_header(p, kind) + attribute_octets(order, RTA_TABLE, order.bytes(table as nat, 4))
        + attribute_octets(order, RTA_DST, address_octets(p.addr))
}

/// An attribute at the start of a list is read back, and the rest follows.
proof fn lemma_attribute_is_read(
    order: ByteOrder,
    kind: u16,
    value: Seq<u8>,
    rest: Seq<u8>,
    width: nat,
    f: Found,
    g: Found,
)
    requires
        value.len() == 4 || value.len() == 16,
        attribute(order, kind, value, width, f) == Ok::<Found, NetlinkError>(g),
    ensures
        attributes(order, attribute_octets(order, kind, value) + rest, width, f) == attributes(
            order,
            rest,
            width,
            g,
        ),
{
    let b = attribute_octets(order, kind, value) + rest;
    let n = (value.len() + 4) as nat;
    lemma_pow256_small();
    order.lemma_roundtrip(n, 2);
    order.lemma_roundtrip(kind as nat, 2);
    assert(b.subrange(0, 2) =~= order.bytes(n, 2));
    assert(b.subrange(2, 4) =~= order.bytes(kind as nat, 2));
    assert(b.subrange(4, n as int) =~= value);
    assert(align(n) == n);
    assert(b.skip(n as int) =~= rest);
}

/// A unicast route in a selected table is its prefix without host bits. In a table
/// that is not selected it is nothing, nor is a route of another type.
pub proof fn law_route_is_read_back(
    order: ByteOrder,
    table: u32,
    p: IpNet,
    kind: u8,
    tables: Seq<u32>,
)
    requires
        p.wf(),
    ensures
        route_of(order, route_message(order, table, p, kind), tables) == if kind == 1
            && tables.contains(table) {
            Ok::<Option<IpNet>, NetlinkError>(Some(p.spec_trunc()))
        } else {
            Ok::<Option<IpNet>, NetlinkError>(None)
        },
{
    let b = route_message(order, table, p, kind);
    let w = family_width(family_of(p.addr));
    let one = attribute_octets(order, RTA_TABLE, order.bytes(table as nat, 4));
    let octets = address_octets(p.addr);
    let two = attribute_octets(order, RTA_DST, octets);
    lemma_pow256_small();
    order.lemma_roundtrip(table as nat, 4);
    lemma_be_len(p.addr.value() as nat, w);
    lemma_be_value_of_be(p.addr.value() as nat, w);
    assert(b.subrange(8, 12) =~= zeros(4));
    assert(order.arrange(zeros(4)) =~= zeros(4));
    reveal_with_fuel(be_value, 5);
    assert(be_value(zeros(4)) == 0);
    let start = Found { table: b[4] as u32, dst: None };
    let tabled = Found { table, dst: None };
    let found = Found { table, dst: Some(octets) };
    assert(b.skip(12) =~= one + two);
    assert(two =~= two + Seq::<u8>::empty());
    lemma_attribute_is_read(order, RTA_TABLE, order.bytes(table as nat, 4), two, w, start, tabled);
    lemma_attribute_is_read(order, RTA_DST, octets, Seq::empty(), w, tabled, found);
}

/// Whether a message announces this prefix.
pub open spec fn announces(t: Terms, m: Envelope, p: IpNet) -> bool {
    m.kind == RTM_NEWROUTE && route_of(t.order, m.payload, t.tables) == Ok::<
        Option<IpNet>,
        NetlinkError,
    >(Some(p))
}

/// What a run of messages that is accepted gives is what was there before and
/// each prefix that some message announces, once, whatever the order. It is
/// never more than the limit.
pub proof fn law_dump_collects_routes(t: Terms, m: Seq<Envelope>, s: Progress)
    requires
        heard_all(t, m, s) is Ok,
        s.prefixes.finite(),
        s.prefixes.len() <= t.limit,
    ensures
        heard_all(t, m, s) matches Ok(next) ==> {
            &&& next.prefixes.finite()
            &&& next.prefixes.len() <= t.limit
            &&& forall|p: IpNet|
                next.prefixes.contains(p) <==> s.prefixes.contains(p) || exists|i: int|
                    0 <= i < m.len() && announces(t, #[trigger] m[i], p)
        },
    decreases m.len(),
{
    if m.len() > 0 {
        let rest = m.drop_last();
        law_dump_collects_routes(t, rest, s);
        let before = heard_all(t, rest, s)->Ok_0;
        let next = heard_all(t, m, s)->Ok_0;
        assert forall|p: IpNet|
            next.prefixes.contains(p) <==> s.prefixes.contains(p) || exists|i: int|
                0 <= i < m.len() && announces(t, #[trigger] m[i], p) by {
            if exists|i: int| 0 <= i < rest.len() && announces(t, #[trigger] rest[i], p) {
                let i = choose|i: int| 0 <= i < rest.len() && announces(t, #[trigger] rest[i], p);
                assert(announces(t, m[i], p));
            }
            if exists|i: int| 0 <= i < m.len() && announces(t, #[trigger] m[i], p) {
                let i = choose|i: int| 0 <= i < m.len() && announces(t, #[trigger] m[i], p);
                if i < rest.len() {
                    assert(announces(t, rest[i], p));
                }
            }
            if announces(t, m.last(), p) {
                assert(announces(t, m[m.len() - 1], p));
            }
        }
    }
}

/// The messages of several datagrams, one after the other.
pub open spec fn all_messages(order: ByteOrder, d: Seq<Seq<u8>>) -> Seq<Envelope>
    decreases d.len(),
{
    if d.len() == 0 {
        Seq::empty()
    } else {
        all_messages(order, d.drop_last()) + split(order, d.last()).0
    }
}

proof fn lemma_heard_in_turn(t: Terms, a: Seq<Envelope>, b: Seq<Envelope>, s: Progress)
    ensures
        heard_all(t, a + b, s) == match heard_all(t, a, s) {
            Ok(next) => heard_all(t, b, next),
            Err(e) => Err(e),
        },
    decreases b.len(),
{
    if b.len() == 0 {
        assert(a + b =~= a);
    } else {
        assert((a + b).drop_last() =~= a + b.drop_last());
        lemma_heard_in_turn(t, a, b.drop_last(), s);
    }
}

/// How a reply is cut into datagrams does not matter: what is accepted is what
/// its messages say, and every datagram of it was whole.
pub proof fn law_reply_is_its_messages(t: Terms, d: Seq<Seq<u8>>, s: Progress)
    requires
        heard_reply(t, d, s) is Ok,
    ensures
        heard_reply(t, d, s) == heard_all(t, all_messages(t.order, d), s),
        forall|i: int|
            0 <= i < d.len() ==> (#[trigger] d[i]).len() > 0 && split(t.order, d[i]).1 is None,
    decreases d.len(),
{
    if d.len() > 0 {
        law_reply_is_its_messages(t, d.drop_last(), s);
        lemma_heard_in_turn(
            t,
            all_messages(t.order, d.drop_last()),
            split(t.order, d.last()).0,
            s,
        );
        assert forall|i: int| 0 <= i < d.len() implies (#[trigger] d[i]).len() > 0 && split(
            t.order,
            d[i],
        ).1 is None by {
            if i < d.len() - 1 {
                assert(d[i] == d.drop_last()[i]);
            }
        }
    }
}

/// Everything that a dump gives is a prefix without host bits.
pub proof fn law_route_has_no_host_bits(order: ByteOrder, payload: Seq<u8>, tables: Seq<u32>)
    ensures
        route_of(order, payload, tables) matches Ok(Some(p)) ==> p.wf() && p.canonical(),
{
    if let Ok(Some(p)) = route_of(order, payload, tables) {
        let w = family_width(payload[0]);
        let f = attributes(order, payload.skip(12), w, Found { table: payload[4] as u32, dst: None })->Ok_0;
        let octets = match f.dst {
            Some(d) => d,
            None => zeros(w),
        };
        let raw = IpNet {
            addr: crate::netlink::route::address(w, octets),
            prefix_len: payload[1],
        };
        law_trunc_is_idempotent(raw);
    }
}

/// Only an ordinary unicast route in a selected table announces anything: no
/// local, broadcast, blackhole, prohibit, unreachable, cloned or source-specific
/// one does.
pub proof fn law_only_ordinary_routes_count(order: ByteOrder, payload: Seq<u8>, tables: Seq<u32>)
    ensures
        route_of(order, payload, tables) matches Ok(Some(_)) ==> payload.len() >= 12 && ordinary(
            order,
            payload,
        ),
        payload.len() >= 12 && !ordinary(order, payload) ==> route_of(order, payload, tables)
            == Ok::<Option<IpNet>, NetlinkError>(None),
{
}

/// Whether a route was seen before the message at a place.
pub open spec fn seen_before(m: Seq<Envelope>, i: int, s: Progress) -> bool {
    s.saw_route || exists|j: int| 0 <= j < i && (#[trigger] m[j]).kind == RTM_NEWROUTE
}

/// A message that no dump survives: of another request, after an interruption or an
/// overrun, a failure, or a malformed record. That a table does not exist is no
/// failure before any route of it.
pub open spec fn is_fatal(t: Terms, m: Envelope, saw_route: bool) -> bool {
    ||| m.seq != t.seq
    ||| m.flags / 0x10 % 2 != 0
    ||| m.kind == NLMSG_OVERRUN
    ||| m.kind == NLMSG_DONE && status_of(t.order, m.payload, saw_route) is Err
    ||| m.kind == NLMSG_ERROR && (m.payload.len() < 4 || {
        let e = errno(t.order.value(m.payload.subrange(0, 4)) as u32);
        e != 0 && !(e == ENOENT && !saw_route)
    })
    ||| m.kind == RTM_NEWROUTE && route_of(t.order, m.payload, t.tables) is Err
}

/// The message that ends a reply well: the end of the dump with a good status, or
/// word that the table does not exist.
pub open spec fn is_end(t: Terms, m: Envelope, saw_route: bool) -> bool {
    ||| m.kind == NLMSG_DONE && status_of(t.order, m.payload, saw_route) is Ok
    ||| m.kind == NLMSG_ERROR && m.payload.len() >= 4 && !saw_route && errno(
        t.order.value(m.payload.subrange(0, 4)) as u32,
    ) == ENOENT
}

/// Progress knows of a route exactly where a message told of one.
proof fn lemma_saw_route(t: Terms, m: Seq<Envelope>, s: Progress)
    ensures
        heard_all(t, m, s) matches Ok(next) ==> next.saw_route == seen_before(
            m,
            m.len() as int,
            s,
        ),
    decreases m.len(),
{
    if m.len() > 0 {
        let rest = m.drop_last();
        lemma_saw_route(t, rest, s);
        if seen_before(rest, rest.len() as int, s) && !s.saw_route {
            let j = choose|j: int|
                0 <= j < rest.len() && (#[trigger] rest[j]).kind == RTM_NEWROUTE;
            assert(m[j].kind == RTM_NEWROUTE);
        }
        if seen_before(m, m.len() as int, s) && !s.saw_route {
            let j = choose|j: int| 0 <= j < m.len() && (#[trigger] m[j]).kind == RTM_NEWROUTE;
            if j < rest.len() {
                assert(rest[j].kind == RTM_NEWROUTE);
            }
        }
        if m.last().kind == RTM_NEWROUTE {
            assert(m[m.len() - 1].kind == RTM_NEWROUTE);
        }
    }
}

/// What was seen before a place does not depend on what follows.
proof fn lemma_seen_before(m: Seq<Envelope>, i: int, s: Progress)
    requires
        0 <= i < m.len(),
    ensures
        seen_before(m.drop_last(), i, s) == seen_before(m, i, s),
{
    let rest = m.drop_last();
    if seen_before(m, i, s) && !s.saw_route {
        let j = choose|j: int| 0 <= j < i && (#[trigger] m[j]).kind == RTM_NEWROUTE;
        assert(rest[j].kind == RTM_NEWROUTE);
    }
    if seen_before(rest, i, s) && !s.saw_route {
        let j = choose|j: int| 0 <= j < i && (#[trigger] rest[j]).kind == RTM_NEWROUTE;
        assert(m[j].kind == RTM_NEWROUTE);
    }
}

/// No dump is accepted with a message of another request, after an interruption or
/// an overrun, with a failure or with a malformed record.
pub proof fn law_dump_refuses(t: Terms, m: Seq<Envelope>, s: Progress, i: int)
    requires
        0 <= i < m.len(),
        is_fatal(t, m[i], seen_before(m, i, s)),
    ensures
        heard_all(t, m, s) is Err,
    decreases m.len(),
{
    let rest = m.drop_last();
    lemma_seen_before(m, i, s);
    if i < rest.len() {
        assert(rest[i] == m[i]);
        law_dump_refuses(t, rest, s, i);
    } else {
        lemma_saw_route(t, rest, s);
    }
}

/// A reply that is complete has a message that ends it well.
proof fn lemma_complete_reply_has_an_end(t: Terms, m: Seq<Envelope>, s: Progress)
    requires
        !s.done,
        heard_all(t, m, s) matches Ok(next) && next.done,
    ensures
        exists|i: int| 0 <= i < m.len() && is_end(t, #[trigger] m[i], seen_before(m, i, s)),
    decreases m.len(),
{
    let rest = m.drop_last();
    let before = heard_all(t, rest, s)->Ok_0;
    if before.done {
        lemma_complete_reply_has_an_end(t, rest, s);
        let i = choose|i: int|
            0 <= i < rest.len() && is_end(t, #[trigger] rest[i], seen_before(rest, i, s));
        lemma_seen_before(m, i, s);
        assert(is_end(t, m[i], seen_before(m, i, s)));
    } else {
        let i = m.len() - 1;
        lemma_saw_route(t, rest, s);
        lemma_seen_before(m, i, s);
        assert(is_end(t, m[i], seen_before(m, i, s)));
    }
}

/// The messages of a reply.
pub open spec fn messages_of(t: Terms, r: Reply) -> Seq<Envelope> {
    all_messages(t.order, r.datagrams)
}

/// What a reply starts from: no route of it was seen, and it is not complete.
pub open spec fn unheard(prefixes: Set<IpNet>) -> Progress {
    Progress { prefixes, saw_route: false, done: false }
}

/// A reply that ended well: every datagram was whole, no message of it is one that
/// a dump does not survive, and one ends it.
pub open spec fn ended_well(t: Terms, r: Reply) -> bool {
    let m = messages_of(t, r);
    let s = unheard(Set::empty());
    &&& forall|i: int|
        0 <= i < r.datagrams.len() ==> (#[trigger] r.datagrams[i]).len() > 0 && split(
            t.order,
            r.datagrams[i],
        ).1 is None
    &&& forall|i: int|
        0 <= i < m.len() ==> !is_fatal(t.of(r), #[trigger] m[i], seen_before(m, i, s))
    &&& exists|i: int| 0 <= i < m.len() && is_end(t.of(r), #[trigger] m[i], seen_before(m, i, s))
}

/// Whether a reply announces this prefix.
pub open spec fn tells_of(t: Terms, r: Reply, p: IpNet) -> bool {
    exists|i: int|
        0 <= i < messages_of(t, r).len() && announces(t, #[trigger] messages_of(t, r)[i], p)
}

/// Replies that are complete, one after the other, each ended well, and give
/// exactly what they announce.
proof fn lemma_replies(t: Terms, h: Seq<Reply>)
    requires
        after_replies(t, h) matches Ok(s) && s.done,
        forall|i: int|
            0 <= i < h.len() ==> (after_replies(t, #[trigger] h.take(i)) matches Ok(s) && s.done),
    ensures
        after_replies(t, h) matches Ok(s) ==> {
            &&& s.prefixes.finite()
            &&& s.prefixes.len() <= t.limit
            &&& forall|p: IpNet|
                s.prefixes.contains(p) <==> exists|i: int|
                    0 <= i < h.len() && tells_of(t, #[trigger] h[i], p)
        },
        forall|i: int| 0 <= i < h.len() ==> ended_well(t, #[trigger] h[i]),
    decreases h.len(),
{
    if h.len() > 0 {
        let rest = h.drop_last();
        let r = h.last();
        assert(h.take(h.len() - 1) =~= rest);
        assert forall|i: int| 0 <= i < rest.len() implies (after_replies(
            t,
            #[trigger] rest.take(i),
        ) matches Ok(s) && s.done) by {
            assert(rest.take(i) =~= h.take(i));
        }
        lemma_replies(t, rest);
        let before = after_replies(t, rest)->Ok_0;
        let next = after_replies(t, h)->Ok_0;
        let start = unheard(before.prefixes);
        let m = messages_of(t, r);
        law_reply_is_its_messages(t.of(r), r.datagrams, start);
        law_dump_collects_routes(t.of(r), m, start);
        lemma_complete_reply_has_an_end(t.of(r), m, start);
        let nothing = unheard(Set::<IpNet>::empty());
        assert forall|i: int| 0 <= i < m.len() implies !is_fatal(
            t.of(r),
            #[trigger] m[i],
            seen_before(m, i, nothing),
        ) by {
            assert(seen_before(m, i, nothing) == seen_before(m, i, start));
            if is_fatal(t.of(r), m[i], seen_before(m, i, start)) {
                law_dump_refuses(t.of(r), m, start, i);
            }
        }
        let e = choose|i: int|
            0 <= i < m.len() && is_end(t.of(r), #[trigger] m[i], seen_before(m, i, start));
        assert(is_end(t.of(r), m[e], seen_before(m, e, nothing)));
        assert(ended_well(t, r));
        assert forall|i: int| 0 <= i < h.len() implies ended_well(t, #[trigger] h[i]) by {
            if i < rest.len() {
                assert(h[i] == rest[i]);
            }
        }
        assert forall|p: IpNet|
            next.prefixes.contains(p) <==> exists|i: int|
                0 <= i < h.len() && tells_of(t, #[trigger] h[i], p) by {
            assert(tells_of(t, r, p) <==> exists|i: int|
                0 <= i < m.len() && announces(t.of(r), #[trigger] m[i], p)) by {
                if tells_of(t, r, p) {
                    let i = choose|i: int| 0 <= i < m.len() && announces(t, #[trigger] m[i], p);
                    assert(announces(t.of(r), m[i], p));
                }
                if exists|i: int| 0 <= i < m.len() && announces(t.of(r), #[trigger] m[i], p) {
                    let i = choose|i: int|
                        0 <= i < m.len() && announces(t.of(r), #[trigger] m[i], p);
                    assert(announces(t, m[i], p));
                }
            }
            if before.prefixes.contains(p) {
                let i = choose|i: int| 0 <= i < rest.len() && tells_of(t, #[trigger] rest[i], p);
                assert(tells_of(t, h[i], p));
            }
            if exists|i: int| 0 <= i < h.len() && tells_of(t, #[trigger] h[i], p) {
                let i = choose|i: int| 0 <= i < h.len() && tells_of(t, #[trigger] h[i], p);
                if i < rest.len() {
                    assert(tells_of(t, rest[i], p));
                }
            }
            if tells_of(t, r, p) {
                assert(tells_of(t, h[h.len() - 1], p));
            }
        }
    }
}

/// A complete snapshot had one reply for each request, in their order, and each
/// ended well. Where it is closed with success, it gives exactly the prefixes that
/// the replies announce, no more than the limit; it counts as changed exactly where
/// some of the notifications that were noted tell of a change, and none of them
/// tells of a loss.
pub proof fn law_snapshot_is_what_the_replies_announce(s: Snapshot, last: Events)
    requires
        s.wf(),
        s.traced(),
        s.complete(),
    ensures
        ({
            let replies = s.trace@.replies;
            let events = s.trace@.events.push(last);
            &&& replies.len() == s.requests().len()
            &&& forall|i: int|
                0 <= i < replies.len() ==> {
                    &&& ((#[trigger] replies[i]).family, replies[i].table) == s.requests()[i]
                    &&& ended_well(s.terms(), replies[i])
                }
            &&& s.finished(last) matches Ok((prefixes, changed)) ==> {
                &&& forall|p: IpNet|
                    prefixes@.contains(p) <==> exists|i: int|
                        0 <= i < replies.len() && tells_of(s.terms(), #[trigger] replies[i], p)
                &&& prefixes@.len() <= s.limit
                &&& changed <==> exists|i: int|
                    0 <= i < events.len() && (#[trigger] events[i]).changed
                &&& forall|i: int| 0 <= i < events.len() ==> !(#[trigger] events[i]).lost
            }
        }),
{
    let noted = s.trace@.events;
    let events = noted.push(last);
    lemma_replies(s.terms(), s.trace@.replies);
    if s.changed {
        let i = choose|i: int| 0 <= i < noted.len() && (#[trigger] noted[i]).changed;
        assert(events[i].changed);
    }
    if last.changed {
        assert(events[noted.len() as int].changed);
    }
    assert forall|i: int| 0 <= i < events.len() implies (!last.lost ==> !(
    #[trigger] events[i]).lost) && (events[i].changed ==> s.changed || last.changed) by {
        if i < noted.len() {
            assert(events[i] == noted[i]);
        }
    }
}

/// Messages are heard one after the other: an error ends the reply, and no message
/// before it is undone.
pub proof fn law_messages_are_heard_in_turn(t: Terms, m: Envelope, rest: Seq<Envelope>, s: Progress)
    ensures
        heard_all(t, Seq::empty(), s) == Ok::<Progress, NetlinkError>(s),
        heard_all(t, seq![m] + rest, s) == match heard(t, m, s) {
            Err(e) => Err::<Progress, NetlinkError>(e),
            Ok(next) => heard_all(t, rest, next),
        },
{
    lemma_heard_in_turn(t, seq![m], rest, s);
    assert(seq![m].drop_last() =~= Seq::<Envelope>::empty());
    assert(heard_all(t, seq![m].drop_last(), s) == Ok::<Progress, NetlinkError>(s));
}

/// A datagram counts as a whole: an empty one and one that is not whole are errors, and
/// so is one of whose messages one is; else it does what its messages do.
pub proof fn law_datagram_counts_as_a_whole(t: Terms, b: Seq<u8>, s: Progress)
    ensures
        b.len() == 0 ==> heard_datagram(t, b, s) == Err::<Progress, NetlinkError>(
            NetlinkError::EmptyDatagram,
        ),
        b.len() > 0 && heard_all(t, split(t.order, b).0, s) is Err ==> heard_datagram(t, b, s)
            == heard_all(t, split(t.order, b).0, s),
        b.len() > 0 && heard_all(t, split(t.order, b).0, s) is Ok ==> match split(t.order, b).1 {
            Some(e) => heard_datagram(t, b, s) == Err::<Progress, NetlinkError>(e),
            None => heard_datagram(t, b, s) == heard_all(t, split(t.order, b).0, s),
        },
{
}

} // verus!
