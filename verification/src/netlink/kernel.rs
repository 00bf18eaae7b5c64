//! What the kernel's messages mean, by the lists that they are made of.
use vstd::arithmetic::power2::pow2;
use vstd::prelude::*;

use crate::addr::IpAddr;
use crate::bytes::{be_value, lemma_be_of_be_value, lemma_pow256_small, ByteOrder};
use crate::config::Config;
use crate::net::{lemma_first_bounds, IpNet, Prefixes};
use crate::netlink::dump::{
    dump_status_in, errno, heard, heard_datagram, next_seq, requests, Progress, Snapshot,
    Terms,
};
use crate::netlink::event::{Events, Received};
use crate::netlink::message::{
    align, envelope, messages_in, order_of, padding, request, request_message, request_payload,
    split, zeros, Envelope, NetlinkError, Split,
};
use crate::netlink::route::{
    address, attribute, attributes, family_width, route_in, route_of, Found,
};

verus! {

/// One attribute of a route.
pub struct RouteAttribute {
    pub kind: u16,
    pub value: Seq<u8>,
}

/// How many octets fill a length up to a multiple of four.
pub open spec fn filling(len: nat) -> nat {
    ((4 - len % 4) % 4) as nat
}

/// Attributes as the kernel writes them, each filled up to a multiple of four octets.
pub open spec fn attribute_list(order: ByteOrder, s: Seq<RouteAttribute>) -> Seq<u8>
    decreases s.len(),
{
    if s.len() == 0 {
        Seq::empty()
    } else {
        order.bytes(s[0].value.len() + 4, 2) + order.bytes(s[0].kind as nat, 2) + s[0].value
            + zeros(filling(s[0].value.len())) + attribute_list(order, s.skip(1))
    }
}

/// Every length can be written.
pub open spec fn attributes_fit(s: Seq<RouteAttribute>) -> bool {
    forall|i: int| 0 <= i < s.len() ==> (#[trigger] s[i]).value.len() + 4 <= 0xffff
}

/// Destinations have the size of an address, tables that of a number.
pub open spec fn attributes_sound(s: Seq<RouteAttribute>, width: nat) -> bool {
    forall|i: int|
        0 <= i < s.len() ==> {
            &&& (#[trigger] s[i]).kind % 0x4000 == 1 ==> s[i].value.len() == width
            &&& s[i].kind % 0x4000 == 15 ==> s[i].value.len() == 4
        }
}

/// Where the last attribute of a type is, two bits of the type aside; nowhere, where
/// there is none.
pub open spec fn is_last(s: Seq<RouteAttribute>, code: u16, at: Option<int>) -> bool {
    match at {
        Some(i) => {
            &&& 0 <= i < s.len()
            &&& s[i].kind % 0x4000 == code
            &&& forall|j: int| i < j < s.len() ==> (#[trigger] s[j]).kind % 0x4000 != code
        },
        None => forall|j: int| 0 <= j < s.len() ==> (#[trigger] s[j]).kind % 0x4000 != code,
    }
}

/// What the first attributes say.
spec fn said(order: ByteOrder, s: Seq<RouteAttribute>, k: int, f: Found) -> Found
    decreases k,
{
    if k <= 0 {
        f
    } else {
        let before = said(order, s, k - 1, f);
        let a = s[k - 1];
        if a.kind % 0x4000 == 1 {
            Found { dst: Some(a.value), ..before }
        } else if a.kind % 0x4000 == 15 {
            Found { table: order.value(a.value) as u32, ..before }
        } else {
            before
        }
    }
}

/// The first attribute of a list is taken in first.
proof fn lemma_first_attribute(
    order: ByteOrder,
    a: RouteAttribute,
    rest: Seq<u8>,
    width: nat,
    f: Found,
)
    requires
        a.value.len() + 4 <= 0xffff,
    ensures
        ({
            let b = order.bytes(a.value.len() + 4, 2) + order.bytes(a.kind as nat, 2) + a.value
                + zeros(filling(a.value.len())) + rest;
            attributes(order, b, width, f) == match attribute(order, a.kind, a.value, width, f) {
                Err(e) => Err(e),
                Ok(g) => attributes(order, rest, width, g),
            }
        }),
{
    let n = a.value.len() + 4;
    let pad = filling(a.value.len());
    let b = order.bytes(n, 2) + order.bytes(a.kind as nat, 2) + a.value + zeros(pad) + rest;
    lemma_pow256_small();
    order.lemma_roundtrip(n, 2);
    order.lemma_roundtrip(a.kind as nat, 2);
    assert(b.subrange(0, 2) =~= order.bytes(n, 2));
    assert(b.subrange(2, 4) =~= order.bytes(a.kind as nat, 2));
    assert(b.subrange(4, n as int) =~= a.value);
    assert(align(n) == n + pad);
    assert(b.skip(align(n) as int) =~= rest);
    if n == b.len() {
        assert(rest =~= Seq::<u8>::empty());
    }
}

proof fn lemma_said(
    order: ByteOrder,
    s: Seq<RouteAttribute>,
    width: nat,
    f: Found,
    k: int,
)
    requires
        0 <= k <= s.len(),
        attributes_fit(s),
        forall|i: int|
            0 <= i < k ==> {
                &&& (#[trigger] s[i]).kind % 0x4000 == 1 ==> s[i].value.len() == width
                &&& s[i].kind % 0x4000 == 15 ==> s[i].value.len() == 4
            },
    ensures
        attributes(order, attribute_list(order, s), width, f) == attributes(
            order,
            attribute_list(order, s.skip(k)),
            width,
            said(order, s, k, f),
        ),
    decreases k,
{
    if k == 0 {
        assert(s.skip(0) =~= s);
    } else {
        lemma_said(order, s, width, f, k - 1);
        let left = s.skip(k - 1);
        let a = s[k - 1];
        assert(left[0] == a);
        assert(left.skip(1) =~= s.skip(k));
        let before = said(order, s, k - 1, f);
        lemma_first_attribute(order, a, attribute_list(order, s.skip(k)), width, before);
        assert(a.value.len() + 4 <= 0xffff);
    }
}

/// What is said in the end is what the last attribute of each type says.
proof fn lemma_last_counts(
    order: ByteOrder,
    s: Seq<RouteAttribute>,
    k: int,
    f: Found,
    table_at: Option<int>,
    dst_at: Option<int>,
)
    requires
        0 <= k <= s.len(),
        is_last(s.take(k), 15, table_at),
        is_last(s.take(k), 1, dst_at),
    ensures
        said(order, s, k, f).table == match table_at {
            Some(i) => order.value(s[i].value) as u32,
            None => f.table,
        },
        said(order, s, k, f).dst == match dst_at {
            Some(i) => Some(s[i].value),
            None => f.dst,
        },
    decreases k,
{
    if k > 0 {
        let now = s.take(k);
        let before = s.take(k - 1);
        assert forall|j: int| 0 <= j < before.len() implies #[trigger] before[j] == now[j] by {}
        let a = now[k - 1];
        let t = if a.kind % 0x4000 == 15 {
            lemma_some_last(before, 15)
        } else {
            table_at
        };
        let d = if a.kind % 0x4000 == 1 {
            lemma_some_last(before, 1)
        } else {
            dst_at
        };
        assert(a.kind % 0x4000 == 15 ==> table_at == Some(k - 1)) by {
            if a.kind % 0x4000 == 15 {
                match table_at {
                    Some(i) => {
                        if i < k - 1 {
                            assert(now[k - 1].kind % 0x4000 != 15);
                        }
                    },
                    None => {
                        assert(now[k - 1].kind % 0x4000 != 15);
                    },
                }
            }
        }
        assert(a.kind % 0x4000 == 1 ==> dst_at == Some(k - 1)) by {
            if a.kind % 0x4000 == 1 {
                match dst_at {
                    Some(i) => {
                        if i < k - 1 {
                            assert(now[k - 1].kind % 0x4000 != 1);
                        }
                    },
                    None => {
                        assert(now[k - 1].kind % 0x4000 != 1);
                    },
                }
            }
        }
        assert(is_last(before, 15, t));
        assert(is_last(before, 1, d));
        lemma_last_counts(order, s, k - 1, f, t, d);
    }
}

/// There is a last attribute of a type, or none.
proof fn lemma_some_last(s: Seq<RouteAttribute>, code: u16) -> (at: Option<int>)
    ensures
        is_last(s, code, at),
    decreases s.len(),
{
    if s.len() == 0 {
        None
    } else if s.last().kind % 0x4000 == code {
        Some(s.len() - 1)
    } else {
        let before = s.drop_last();
        let at = lemma_some_last(before, code);
        assert forall|j: int| 0 <= j < before.len() implies #[trigger] s[j] == before[j] by {}
        at
    }
}

/// A route that is unicast, has no source prefix and is not cloned counts, whatever its
/// type of service, protocol, scope and other flags are, and whatever other attributes
/// it has: in a selected table it gives its destination without host bits. The last
/// table and the last destination count; without a table attribute that of the header
/// does, and without a destination the default route is meant.
pub proof fn law_every_ordinary_route_counts(
    order: ByteOrder,
    h: Seq<u8>,
    s: Seq<RouteAttribute>,
    table_at: Option<int>,
    dst_at: Option<int>,
    tables: Seq<u32>,
)
    requires
        h.len() == 12,
        h[0] == 2 || h[0] == 10,
        h[1] <= if h[0] == 2 {
            32int
        } else {
            128
        },
        h[2] == 0,
        h[7] == 1,
        order.value(h.subrange(8, 12)) / 0x200 % 2 == 0,
        attributes_fit(s),
        attributes_sound(
            s,
            if h[0] == 2 {
                4
            } else {
                16
            },
        ),
        is_last(s, 15, table_at),
        is_last(s, 1, dst_at),
    ensures
        ({
            let r = route_of(order, h + attribute_list(order, s), tables);
            let table = match table_at {
                Some(i) => order.value(s[i].value) as u32,
                None => h[4] as u32,
            };
            let v: int = match dst_at {
                Some(i) => be_value(s[i].value) as int,
                None => 0,
            };
            if dst_at is None && h[1] > 0 {
                r == Err::<Option<IpNet>, NetlinkError>(NetlinkError::MissingDestination)
            } else if !tables.contains(table) {
                r == Ok::<Option<IpNet>, NetlinkError>(None)
            } else {
                r matches Ok(Some(p)) && p.prefix_len == h[1] && match p.addr {
                    IpAddr::V4(a) => h[0] == 2 && a.bits == v - v % pow2((32 - h[1]) as nat) as int,
                    IpAddr::V6(a) => h[0] == 10 && a.bits == v - v % pow2(
                        (128 - h[1]) as nat,
                    ) as int,
                }
            }
        }),
{
    let b = h + attribute_list(order, s);
    let width = family_width(h[0]);
    let f = Found { table: h[4] as u32, dst: None };
    assert(b.subrange(8, 12) =~= h.subrange(8, 12));
    assert(b.skip(12) =~= attribute_list(order, s));
    lemma_said(order, s, width, f, s.len() as int);
    assert(s.skip(s.len() as int) =~= Seq::<RouteAttribute>::empty());
    assert(s.take(s.len() as int) =~= s);
    lemma_last_counts(order, s, s.len() as int, f, table_at, dst_at);
    lemma_zero_value(width);
    lemma_pow256_small();
    let octets = match dst_at {
        Some(i) => s[i].value,
        None => zeros(width),
    };
    lemma_be_of_be_value(octets);
    let raw = IpNet { addr: address(width, octets), prefix_len: h[1] };
    lemma_first_bounds(raw);
}

proof fn lemma_zero_value(n: nat)
    ensures
        be_value(zeros(n)) == 0,
    decreases n,
{
    if n > 0 {
        assert(zeros(n).drop_last() =~= zeros((n - 1) as nat));
        lemma_zero_value((n - 1) as nat);
    }
}

/// No other route counts: not one of another family or another type, with a source
/// prefix, or cloned; and a route header that is cut off is an error.
pub proof fn law_other_routes_do_not_count(order: ByteOrder, p: Seq<u8>, tables: Seq<u32>)
    ensures
        p.len() < 12 ==> route_of(order, p, tables) == Err::<Option<IpNet>, NetlinkError>(
            NetlinkError::ShortRoute,
        ),
        p.len() >= 12 && (p[0] != 2 && p[0] != 10 || p[7] != 1 || p[2] != 0 || order.value(
            p.subrange(8, 12),
        ) / 0x200 % 2 != 0) ==> route_of(order, p, tables) == Ok::<Option<IpNet>, NetlinkError>(
            None,
        ),
        p.len() >= 12 && (p[0] == 2 && p[1] > 32 || p[0] == 10 && p[1] > 128) && p[7] == 1 && p[2]
            == 0 && order.value(p.subrange(8, 12)) / 0x200 % 2 == 0 ==> route_of(order, p, tables)
            == Err::<Option<IpNet>, NetlinkError>(NetlinkError::PrefixLength),
{
}

/// A destination or a table of the wrong size makes the route an error, wherever it is.
pub proof fn law_misshapen_attribute_is_an_error(
    order: ByteOrder,
    h: Seq<u8>,
    s: Seq<RouteAttribute>,
    tables: Seq<u32>,
    at: int,
)
    requires
        h.len() == 12,
        h[0] == 2 || h[0] == 10,
        h[1] <= if h[0] == 2 {
            32int
        } else {
            128
        },
        h[2] == 0,
        h[7] == 1,
        order.value(h.subrange(8, 12)) / 0x200 % 2 == 0,
        attributes_fit(s),
        0 <= at < s.len(),
        s[at].kind % 0x4000 == 1 && s[at].value.len() != (if h[0] == 2 {
            4int
        } else {
            16
        }) || s[at].kind % 0x4000 == 15 && s[at].value.len() != 4,
    ensures
        route_of(order, h + attribute_list(order, s), tables) is Err,
    decreases at,
{
    let width = family_width(h[0]);
    let b = h + attribute_list(order, s);
    assert(b.subrange(8, 12) =~= h.subrange(8, 12));
    assert(b.skip(12) =~= attribute_list(order, s));
    if exists|i: int|
        0 <= i < at && ((#[trigger] s[i]).kind % 0x4000 == 1 && s[i].value.len() != width
            || s[i].kind % 0x4000 == 15 && s[i].value.len() != 4) {
        let i = choose|i: int|
            0 <= i < at && ((#[trigger] s[i]).kind % 0x4000 == 1 && s[i].value.len() != width
                || s[i].kind % 0x4000 == 15 && s[i].value.len() != 4);
        law_misshapen_attribute_is_an_error(order, h, s, tables, i);
    } else {
        let f = Found { table: h[4] as u32, dst: None };
        lemma_said(order, s, width, f, at);
        let left = s.skip(at);
        assert(left[0] == s[at]);
        assert(s[at].value.len() + 4 <= 0xffff);
        lemma_first_attribute(
            order,
            s[at],
            attribute_list(order, left.skip(1)),
            width,
            said(order, s, at, f),
        );
    }
}

/// One netlink message, with the port that it came from.
pub struct Packet {
    pub kind: u16,
    pub flags: u16,
    pub seq: u32,
    pub port: u32,
    pub payload: Seq<u8>,
}

/// Messages as the kernel writes them, each filled up to a multiple of four octets.
pub open spec fn packet_octets(order: ByteOrder, s: Seq<Packet>) -> Seq<u8>
    decreases s.len(),
{
    if s.len() == 0 {
        Seq::empty()
    } else {
        order.bytes(s[0].payload.len() + 16, 4) + order.bytes(s[0].kind as nat, 2) + order.bytes(
            s[0].flags as nat,
            2,
        ) + order.bytes(s[0].seq as nat, 4) + order.bytes(s[0].port as nat, 4) + s[0].payload
            + zeros(filling(s[0].payload.len())) + packet_octets(order, s.skip(1))
    }
}

/// Every length can be written.
pub open spec fn packets_fit(s: Seq<Packet>) -> bool {
    forall|i: int| 0 <= i < s.len() ==> (#[trigger] s[i]).payload.len() + 16 <= 0xffff_ffff
}

/// The first message of a datagram is found, and then the rest.
proof fn lemma_first_packet(order: ByteOrder, a: Packet, rest: Seq<u8>)
    requires
        a.payload.len() + 16 <= 0xffff_ffff,
    ensures
        ({
            let b = order.bytes(a.payload.len() + 16, 4) + order.bytes(a.kind as nat, 2)
                + order.bytes(a.flags as nat, 2) + order.bytes(a.seq as nat, 4) + order.bytes(
                a.port as nat,
                4,
            ) + a.payload + zeros(filling(a.payload.len())) + rest;
            let m = Envelope { kind: a.kind, flags: a.flags, seq: a.seq, payload: a.payload };
            split(order, b) == (seq![m] + split(order, rest).0, split(order, rest).1)
        }),
{
    let n = a.payload.len() + 16;
    let pad = filling(a.payload.len());
    let (len, kind) = (order.bytes(n, 4), order.bytes(a.kind as nat, 2));
    let (flags, seq) = (order.bytes(a.flags as nat, 2), order.bytes(a.seq as nat, 4));
    let port = order.bytes(a.port as nat, 4);
    let b = len + kind + flags + seq + port + a.payload + zeros(pad) + rest;
    let m = Envelope { kind: a.kind, flags: a.flags, seq: a.seq, payload: a.payload };
    lemma_pow256_small();
    order.lemma_roundtrip(n, 4);
    order.lemma_roundtrip(a.kind as nat, 2);
    order.lemma_roundtrip(a.flags as nat, 2);
    order.lemma_roundtrip(a.seq as nat, 4);
    order.lemma_roundtrip(a.port as nat, 4);
    assert(b.subrange(0, 4) =~= len);
    assert(b.subrange(4, 6) =~= kind);
    assert(b.subrange(6, 8) =~= flags);
    assert(b.subrange(8, 12) =~= seq);
    assert(b.subrange(16, n as int) =~= a.payload);
    assert(envelope(order, b, n) == m);
    assert(align(n) == n + pad);
    assert(b.skip(align(n) as int) =~= rest);
    if n == b.len() {
        assert(rest =~= Seq::<u8>::empty());
        assert(seq![m] + Seq::<Envelope>::empty() =~= seq![m]);
    }
}

/// A datagram of whole messages is split into just these, in order.
pub proof fn law_datagram_is_its_messages(order: ByteOrder, s: Seq<Packet>)
    requires
        packets_fit(s),
    ensures
        ({
            let parts = split(order, packet_octets(order, s));
            &&& parts.1 is None
            &&& parts.0.len() == s.len()
            &&& forall|i: int|
                0 <= i < s.len() ==> {
                    let m = #[trigger] parts.0[i];
                    m.kind == s[i].kind && m.flags == s[i].flags && m.seq == s[i].seq && m.payload
                        == s[i].payload
                }
        }),
    decreases s.len(),
{
    if s.len() > 0 {
        let rest = s.skip(1);
        assert forall|i: int| 0 <= i < rest.len() implies (#[trigger] rest[i]).payload.len() + 16
            <= 0xffff_ffff by {
            assert(rest[i] == s[i + 1]);
        }
        assert(s[0].payload.len() + 16 <= 0xffff_ffff);
        law_datagram_is_its_messages(order, rest);
        lemma_first_packet(order, s[0], packet_octets(order, rest));
        let parts = split(order, packet_octets(order, s));
        let others = split(order, packet_octets(order, rest));
        assert forall|i: int| 0 < i < s.len() implies {
            let m = #[trigger] parts.0[i];
            m.kind == s[i].kind && m.flags == s[i].flags && m.seq == s[i].seq && m.payload
                == s[i].payload
        } by {
            assert(parts.0[i] == others.0[i - 1]);
            assert(s[i] == rest[i - 1]);
        }
    }
}

/// Octets at the end of a datagram that are no message are a fault: too few for a
/// header, or a length that is less than that or more than there is.
pub proof fn law_rest_of_a_datagram_is_a_fault(order: ByteOrder, b: Seq<u8>)
    ensures
        0 < b.len() < 16 ==> split(order, b) == (
            Seq::<Envelope>::empty(),
            Some(NetlinkError::ShortHeader),
        ),
        b.len() >= 16 && (order.value(b.subrange(0, 4)) < 16 || order.value(b.subrange(0, 4))
            > b.len()) ==> split(order, b) == (
            Seq::<Envelope>::empty(),
            Some(NetlinkError::MessageLength),
        ),
{
}

/// What a pass over the notifications notes of a datagram of whole messages: a change
/// exactly where one is about a link, an address, a route or a next hop, and a loss
/// exactly where one tells of an overrun or an error.
pub proof fn law_notifications_are_noted(
    order: ByteOrder,
    s: Seq<Packet>,
    e: Events,
    b: &[u8],
)
    requires
        packets_fit(s),
        s.len() > 0,
        b@ == packet_octets(order, s),
        e.datagrams < u64::MAX,
    ensures
        ({
            let r = e.seen(order, Received::Datagram(b));
            &&& r.changed <==> e.changed || exists|i: int|
                0 <= i < s.len() && (16 <= (#[trigger] s[i]).kind <= 28 || 104 <= s[i].kind <= 106)
            &&& r.lost <==> e.lost || exists|i: int|
                0 <= i < s.len() && ((#[trigger] s[i]).kind == 2 || s[i].kind == 4)
            &&& r.datagrams == e.datagrams + 1
        }),
{
    law_datagram_is_its_messages(order, s);
    let m = split(order, b@).0;
    assert(b@.len() > 0);
    let changes = |k: u16| 16 <= k <= 28 || 104 <= k <= 106;
    let losses = |k: u16| k == 2 || k == 4;
    if exists|i: int|
        0 <= i < s.len() && (16 <= (#[trigger] s[i]).kind <= 28 || 104 <= s[i].kind <= 106) {
        let i = choose|i: int|
            0 <= i < s.len() && (16 <= (#[trigger] s[i]).kind <= 28 || 104 <= s[i].kind <= 106);
        assert(changes(m[i].kind));
    }
    if exists|i: int| 0 <= i < s.len() && ((#[trigger] s[i]).kind == 2 || s[i].kind == 4) {
        let i = choose|i: int| 0 <= i < s.len() && ((#[trigger] s[i]).kind == 2 || s[i].kind == 4);
        assert(losses(m[i].kind));
    }
    if exists|i: int| 0 <= i < m.len() && changes((#[trigger] m[i]).kind) {
        let i = choose|i: int| 0 <= i < m.len() && changes((#[trigger] m[i]).kind);
        assert(s[i].kind == m[i].kind);
    }
    if exists|i: int| 0 <= i < m.len() && losses((#[trigger] m[i]).kind) {
        let i = choose|i: int| 0 <= i < m.len() && losses((#[trigger] m[i]).kind);
        assert(s[i].kind == m[i].kind);
    }
    assert(crate::netlink::event::shows_change(m) <==> exists|i: int|
        0 <= i < m.len() && changes((#[trigger] m[i]).kind));
    assert(crate::netlink::event::shows_loss(m) <==> exists|i: int|
        0 <= i < m.len() && losses((#[trigger] m[i]).kind));
}

/// An empty datagram, one that is not whole, and an error of the socket are a loss.
pub proof fn law_broken_notifications_are_a_loss(order: ByteOrder, e: Events, b: &[u8])
    ensures
        b@.len() == 0 || split(order, b@).1 is Some ==> e.seen(order, Received::Datagram(b)).lost,
        e.seen(order, Received::Failed).lost,
        e.seen(order, Received::WouldBlock) == e,
        e.seen(order, Received::Interrupted) == e,
{
}

/// A status that the kernel sends as a negative number is the system error behind it.
pub proof fn law_status_is_a_system_error(code: u32)
    requires
        code <= 0x7fff_ffff,
    ensures
        code > 0 ==> errno((0x1_0000_0000 - code) as u32) == code,
        errno(0) == 0,
        code > 0 ==> errno(code) == -code,
{
}

/// What each message of a reply does. Another request's message, or one of an
/// interrupted dump, ends it with an error. The end of a dump completes it where its
/// status is empty or zero, or tells that the table does not exist and no route was
/// seen. An error message does the same for a table that does not exist, changes
/// nothing where its number is zero, and is an error else. An overrun is an error. A
/// route adds what it gives, up to the limit. Nothing else matters.
pub proof fn law_messages_of_a_reply(t: Terms, m: Envelope, s: Progress)
    ensures
        m.seq != t.seq ==> heard(t, m, s) == Err::<Progress, NetlinkError>(NetlinkError::Sequence),
        m.seq == t.seq && m.flags / 0x10 % 2 == 1 ==> heard(t, m, s) == Err::<
            Progress,
            NetlinkError,
        >(NetlinkError::Interrupted),
        m.seq == t.seq && m.flags / 0x10 % 2 == 0 ==> {
            let r = heard(t, m, s);
            let whole = m.payload.len() >= 4;
            let code = errno(t.order.value(m.payload.subrange(0, 4)) as u32);
            let absent = whole && code == 2 && !s.saw_route;
            &&& m.kind == 3 ==> if m.payload.len() == 0 || (whole && code == 0) || absent {
                r == Ok::<Progress, NetlinkError>(Progress { done: true, ..s })
            } else {
                r == Err::<Progress, NetlinkError>(
                    if whole {
                        NetlinkError::DumpFailed(code)
                    } else {
                        NetlinkError::ShortStatus
                    },
                )
            }
            &&& m.kind == 2 ==> if absent {
                r == Ok::<Progress, NetlinkError>(Progress { done: true, ..s })
            } else if whole && code == 0 {
                r == Ok::<Progress, NetlinkError>(s)
            } else {
                r == Err::<Progress, NetlinkError>(
                    if whole {
                        NetlinkError::Dump(code)
                    } else {
                        NetlinkError::ShortError
                    },
                )
            }
            &&& m.kind == 4 ==> r == Err::<Progress, NetlinkError>(NetlinkError::Overrun)
            &&& m.kind == 24 ==> match route_of(t.order, m.payload, t.tables) {
                Err(e) => r == Err::<Progress, NetlinkError>(e),
                Ok(None) => r == Ok::<Progress, NetlinkError>(Progress { saw_route: true, ..s }),
                Ok(Some(p)) => if s.prefixes.insert(p).len() > t.limit {
                    r == Err::<Progress, NetlinkError>(NetlinkError::TooManyPrefixes)
                } else {
                    r matches Ok(x) && x.saw_route && x.done == s.done && x.prefixes
                        == s.prefixes.insert(p)
                },
            }
            &&& m.kind != 2 && m.kind != 3 && m.kind != 4 && m.kind != 24 ==> r == Ok::<
                Progress,
                NetlinkError,
            >(s)
        },
{
}

/// A snapshot asks for every selected table once in each family that counts: in IPv4
/// always, in IPv6 where it is enabled.
pub proof fn law_every_table_is_asked_for(ipv6: bool, tables: Seq<u32>, family: u8, table: u32)
    ensures
        requests(ipv6, tables).contains((family, table)) <==> tables.contains(table) && (family == 2
            || family == 10 && ipv6),
        requests(ipv6, tables).len() == tables.len() * if ipv6 {
            2int
        } else {
            1
        },
{
    let r = requests(ipv6, tables);
    let n = tables.len() as int;
    if r.contains((family, table)) {
        let i = choose|i: int| 0 <= i < r.len() && r[i] == (family, table);
        assert(tables[if i < n {
            i
        } else {
            i - n
        }] == table);
    }
    if tables.contains(table) {
        let i = choose|i: int| 0 <= i < n && tables[i] == table;
        assert(r[i] == (2u8, table));
        if ipv6 {
            assert(r[i + n] == (10u8, table));
        }
    }
}

/// Requests are numbered one after the other, and never zero.
pub proof fn law_request_numbers_go_up(seq: u32)
    ensures
        next_seq(seq) != 0,
        seq < u32::MAX ==> next_seq(seq) == seq + 1,
        next_seq(u32::MAX) == 1,
{
}

/// A request is one message that asks for a dump of the routes of a family, all zero
/// but for the family and for one attribute that names the table.
pub proof fn law_request_asks_for_one_table(order: ByteOrder, seq: u32, family: u8, table: u32)
    ensures
        ({
            let header = Seq::new(
                12,
                |i: int|
                    if i == 0 {
                        family
                    } else {
                        0u8
                    },
            );
            let wanted = seq![RouteAttribute { kind: 15, value: order.bytes(table as nat, 4) }];
            request_message(order, seq, family, table) == packet_octets(
                order,
                seq![
                    Packet {
                        kind: 26,
                        flags: 0x301,
                        seq,
                        port: 0,
                        payload: header + attribute_list(order, wanted),
                    },
                ],
            )
        }),
{
    let header = Seq::new(
        12,
        |i: int|
            if i == 0 {
                family
            } else {
                0u8
            },
    );
    let value = order.bytes(table as nat, 4);
    let wanted = seq![RouteAttribute { kind: 15, value }];
    lemma_pow256_small();
    order.lemma_roundtrip(table as nat, 4);
    order.lemma_roundtrip(8, 2);
    order.lemma_roundtrip(15, 2);
    assert(wanted.skip(1) =~= Seq::<RouteAttribute>::empty());
    let payload = header + attribute_list(order, wanted);
    assert(zeros(filling(4)) =~= Seq::<u8>::empty());
    assert(attribute_list(order, Seq::empty()) =~= Seq::<u8>::empty());
    assert(attribute_list(order, wanted) =~= order.bytes(8, 2) + order.bytes(15, 2) + value);
    assert(payload =~= request_payload(order, family, table));
    let packets = seq![Packet { kind: 26, flags: 0x301, seq, port: 0, payload }];
    assert(packets.skip(1) =~= Seq::<Packet>::empty());
    assert(packet_octets(order, Seq::empty()) =~= Seq::<u8>::empty());
    crate::bytes::lemma_be_zero(4);
    assert(order.bytes(0, 4) =~= zeros(4));
    assert(payload.len() == 20);
    assert(zeros(filling(20)) =~= Seq::<u8>::empty());
    assert(packet_octets(order, packets) =~= request_message(order, seq, family, table));
}

/// An attribute without the octets that fill it up.
pub open spec fn bare_attribute(order: ByteOrder, a: RouteAttribute) -> Seq<u8> {
    order.bytes(a.value.len() + 4, 2) + order.bytes(a.kind as nat, 2) + a.value
}

proof fn lemma_bare_attribute(order: ByteOrder, a: RouteAttribute, width: nat, f: Found)
    requires
        a.value.len() + 4 <= 0xffff,
    ensures
        attributes(order, bare_attribute(order, a), width, f) == attribute(
            order,
            a.kind,
            a.value,
            width,
            f,
        ),
{
    let n = a.value.len() + 4;
    let b = bare_attribute(order, a);
    lemma_pow256_small();
    order.lemma_roundtrip(n, 2);
    order.lemma_roundtrip(a.kind as nat, 2);
    assert(b.subrange(0, 2) =~= order.bytes(n, 2));
    assert(b.subrange(2, 4) =~= order.bytes(a.kind as nat, 2));
    assert(b.subrange(4, n as int) =~= a.value);
}

/// The last attribute of a route may lack the octets that fill it up.
pub proof fn law_last_attribute_needs_no_filling(
    order: ByteOrder,
    s: Seq<RouteAttribute>,
    a: RouteAttribute,
    width: nat,
    f: Found,
)
    requires
        attributes_fit(s.push(a)),
    ensures
        attributes(order, attribute_list(order, s) + bare_attribute(order, a), width, f)
            == attributes(order, attribute_list(order, s.push(a)), width, f),
    decreases s.len(),
{
    let bare = bare_attribute(order, a);
    let all = s.push(a);
    assert(all[s.len() as int] == a);
    if s.len() == 0 {
        let nothing = Seq::<u8>::empty();
        assert(all.skip(1) =~= Seq::<RouteAttribute>::empty());
        assert(attribute_list(order, all.skip(1)) =~= nothing);
        assert(attribute_list(order, s) + bare =~= bare);
        lemma_bare_attribute(order, a, width, f);
        lemma_first_attribute(order, a, nothing, width, f);
    } else {
        let first = s[0];
        let rest = s.skip(1);
        assert(all[0] == first);
        assert(all.skip(1) =~= rest.push(a));
        assert forall|i: int| 0 <= i < rest.push(a).len() implies (
        #[trigger] rest.push(a)[i]).value.len() + 4 <= 0xffff by {
            assert(rest.push(a)[i] == all[i + 1]);
        }
        let tail = attribute_list(order, rest) + bare;
        lemma_first_attribute(order, first, tail, width, f);
        lemma_first_attribute(order, first, attribute_list(order, rest.push(a)), width, f);
        if let Ok(g) = attribute(order, first.kind, first.value, width, f) {
            law_last_attribute_needs_no_filling(order, rest, a, width, g);
        }
        let head = order.bytes(first.value.len() + 4, 2) + order.bytes(first.kind as nat, 2)
            + first.value + zeros(filling(first.value.len()));
        assert((head + attribute_list(order, rest)) + bare =~= head + tail);
    }
}

/// Octets that are no attribute are an error: too few for a header, or a length that is
/// less than that or more than there is.
pub proof fn law_rest_of_the_attributes_is_an_error(
    order: ByteOrder,
    b: Seq<u8>,
    width: nat,
    f: Found,
)
    ensures
        0 < b.len() < 4 ==> attributes(order, b, width, f) == Err::<Found, NetlinkError>(
            NetlinkError::ShortAttribute,
        ),
        b.len() >= 4 && (order.value(b.subrange(0, 2)) < 4 || order.value(b.subrange(0, 2))
            > b.len()) ==> attributes(order, b, width, f) == Err::<Found, NetlinkError>(
            NetlinkError::AttributeLength,
        ),
{
}

/// The last message of a datagram may lack the octets that fill it up.
pub proof fn law_last_message_needs_no_filling(order: ByteOrder, a: Packet)
    requires
        a.payload.len() + 16 <= 0xffff_ffff,
    ensures
        ({
            let bare = order.bytes(a.payload.len() + 16, 4) + order.bytes(a.kind as nat, 2)
                + order.bytes(a.flags as nat, 2) + order.bytes(a.seq as nat, 4) + order.bytes(
                a.port as nat,
                4,
            ) + a.payload;
            split(order, bare) == split(order, packet_octets(order, seq![a]))
        }),
{
    let n = a.payload.len() + 16;
    let (len, kind) = (order.bytes(n, 4), order.bytes(a.kind as nat, 2));
    let (flags, seq) = (order.bytes(a.flags as nat, 2), order.bytes(a.seq as nat, 4));
    let port = order.bytes(a.port as nat, 4);
    let bare = len + kind + flags + seq + port + a.payload;
    let m = Envelope { kind: a.kind, flags: a.flags, seq: a.seq, payload: a.payload };
    lemma_pow256_small();
    order.lemma_roundtrip(n, 4);
    order.lemma_roundtrip(a.kind as nat, 2);
    order.lemma_roundtrip(a.flags as nat, 2);
    order.lemma_roundtrip(a.seq as nat, 4);
    order.lemma_roundtrip(a.port as nat, 4);
    assert(bare.subrange(0, 4) =~= len);
    assert(bare.subrange(4, 6) =~= kind);
    assert(bare.subrange(6, 8) =~= flags);
    assert(bare.subrange(8, 12) =~= seq);
    assert(bare.subrange(16, n as int) =~= a.payload);
    assert(envelope(order, bare, n) == m);
    let one = seq![a];
    assert(one.skip(1) =~= Seq::<Packet>::empty());
    assert(packet_octets(order, Seq::empty()) =~= Seq::<u8>::empty());
    lemma_first_packet(order, a, Seq::empty());
    assert(split(order, Seq::empty()).0 =~= Seq::<Envelope>::empty());
    assert(seq![m] + Seq::<Envelope>::empty() =~= seq![m]);
}

/// A snapshot starts with nothing, for the tables and families and within the limits that
/// the configuration sets.
pub proof fn law_snapshot_starts_empty(
    cfg: &Config,
    order: ByteOrder,
    seq: u32,
    s: Snapshot,
    p: IpNet,
)
    requires
        call_ensures(Snapshot::new, (cfg, order, seq), s),
    ensures
        !s.prefixes@.contains(p) && !s.changed && s.sent == 0 && s.done,
        s.order == order && s.seq == seq && s.ipv6 == cfg.ipv6,
        s.tables@ == cfg.kernel.tables@ && s.limit == cfg.kernel.max_prefixes,
        s.timeout_ms == cfg.kernel.dump_timeout_secs * 1000,
{
}

/// Requests go out one after the other, each under the next number: all tables in IPv4,
/// then, where IPv6 counts, all of them in IPv6. What was read stays.
pub proof fn law_requests_go_out_in_turn(s: &mut Snapshot, r: Option<Vec<u8>>)
    requires
        call_ensures(Snapshot::next_request, (s,), r),
        old(s).done,
        old(s).sent <= requests(old(s).ipv6, old(s).tables@).len(),
    ensures
        final(s).prefixes@ == old(s).prefixes@ && final(s).changed == old(s).changed,
        final(s).tables@ == old(s).tables@ && final(s).ipv6 == old(s).ipv6,
        final(s).limit == old(s).limit && final(s).timeout_ms == old(s).timeout_ms,
        final(s).order == old(s).order,
        r is None <==> old(s).sent == old(s).tables@.len() * if old(s).ipv6 {
            2int
        } else {
            1
        },
        r is None ==> *final(s) == *old(s),
        r matches Some(b) ==> {
            let count = old(s).tables@.len() as int;
            let at = old(s).sent as int;
            &&& final(s).sent == at + 1 && !final(s).done && !final(s).saw_route
            &&& final(s).seq == if old(s).seq == u32::MAX {
                1int
            } else {
                old(s).seq + 1
            }
            &&& at < count ==> b@ == request_message(
                old(s).order,
                final(s).seq,
                2,
                old(s).tables@[at],
            )
            &&& at >= count ==> b@ == request_message(
                old(s).order,
                final(s).seq,
                10,
                old(s).tables@[at - count],
            )
        },
{
    law_every_table_is_asked_for(old(s).ipv6, old(s).tables@, 2, 0);
}

/// A snapshot is given up where the daemon stops, and once it has taken too long.
pub proof fn law_snapshot_may_take_so_long(
    s: &Snapshot,
    stopping: bool,
    elapsed_ms: u64,
    r: Result<(), NetlinkError>,
)
    requires
        call_ensures(Snapshot::check, (s, stopping, elapsed_ms), r),
    ensures
        r is Ok <==> !stopping && elapsed_ms < s.timeout_ms,
        r == Err::<(), NetlinkError>(NetlinkError::Stopping) <==> stopping,
        r == Err::<(), NetlinkError>(NetlinkError::Deadline) <==> !stopping && elapsed_ms
            >= s.timeout_ms,
{
}

/// A change that is noticed meanwhile is remembered, and a loss makes the snapshot fail.
/// Neither touches what was read.
pub proof fn law_changes_meanwhile_are_remembered(
    s: &mut Snapshot,
    events: &Events,
    r: Result<(), NetlinkError>,
)
    requires
        call_ensures(Snapshot::noticed, (s, events), r),
    ensures
        r is Ok <==> !events.lost,
        r is Err ==> r == Err::<(), NetlinkError>(NetlinkError::LossDuringDump) && *final(s)
            == *old(s),
        r is Ok ==> (final(s).changed <==> old(s).changed || events.changed),
        final(s).prefixes == old(s).prefixes && final(s).done == old(s).done,
        final(s).sent == old(s).sent && final(s).seq == old(s).seq,
        final(s).saw_route == old(s).saw_route && final(s).limit == old(s).limit,
        final(s).tables == old(s).tables && final(s).ipv6 == old(s).ipv6,
{
}

/// A datagram adds the prefixes that its messages announce, under the number and for the
/// tables of the request. A fault in it makes the snapshot fail.
pub proof fn law_datagram_adds_its_routes(
    s: &mut Snapshot,
    bytes: &[u8],
    r: Result<(), NetlinkError>,
)
    requires
        call_ensures(Snapshot::datagram, (s, bytes), r),
    ensures
        ({
            let terms = Terms {
                order: old(s).order,
                seq: old(s).seq,
                tables: old(s).tables@,
                limit: old(s).limit as nat,
            };
            let before = Progress {
                prefixes: old(s).prefixes@,
                saw_route: old(s).saw_route,
                done: old(s).done,
            };
            &&& final(s).sent == old(s).sent && final(s).seq == old(s).seq
            &&& final(s).changed == old(s).changed && final(s).tables@ == old(s).tables@
            &&& final(s).limit == old(s).limit && final(s).ipv6 == old(s).ipv6
            &&& r is Ok <==> heard_datagram(terms, bytes@, before) is Ok
            &&& r matches Err(e) ==> heard_datagram(terms, bytes@, before) == Err::<
                Progress,
                NetlinkError,
            >(e)
            &&& r is Ok ==> (heard_datagram(terms, bytes@, before) matches Ok(next)
                && final(s).prefixes@ == next.prefixes && final(s).saw_route == next.saw_route
                && final(s).done == next.done)
        }),
{
    assert(final(s).progress().prefixes == final(s).prefixes@);
}

/// A complete snapshot gives all its prefixes, and is in doubt where anything changed
/// meanwhile. It gives nothing where a notification was lost.
pub proof fn law_complete_snapshot_is_given(
    s: Snapshot,
    events: &Events,
    r: Result<(Prefixes, bool), NetlinkError>,
)
    requires
        call_ensures(Snapshot::finish, (s, events), r),
    ensures
        r is Err <==> events.lost,
        r matches Err(e) ==> e == NetlinkError::LossAfterDump,
        r matches Ok((prefixes, doubt)) ==> prefixes == s.prefixes && (doubt <==> s.changed
            || events.changed),
{
}

/// A route that the kernel sends is taken for its prefix, whatever its type of service,
/// protocol and scope: where it is an ordinary one of a selected table, and there for no
/// other reason than that the kernel keeps it. Else it is nothing.
pub proof fn law_route_is_taken_for_its_prefix(
    order: ByteOrder,
    payload: &[u8],
    h: Seq<u8>,
    s: Seq<RouteAttribute>,
    table_at: Option<int>,
    dst_at: Option<int>,
    tables: &[u32],
    r: Result<Option<IpNet>, NetlinkError>,
)
    requires
        call_ensures(route_in, (order, payload, tables), r),
        payload@ == h + attribute_list(order, s),
        h.len() == 12,
        h[0] == 2 || h[0] == 10,
        h[1] <= if h[0] == 2 {
            32int
        } else {
            128
        },
        h[2] == 0,
        h[7] == 1,
        order.value(h.subrange(8, 12)) / 0x200 % 2 == 0,
        attributes_fit(s),
        attributes_sound(
            s,
            if h[0] == 2 {
                4
            } else {
                16
            },
        ),
        is_last(s, 15, table_at),
        is_last(s, 1, dst_at),
        h[1] > 0 ==> dst_at is Some,
    ensures
        ({
            let table = match table_at {
                Some(i) => order.value(s[i].value) as u32,
                None => h[4] as u32,
            };
            let v: int = match dst_at {
                Some(i) => be_value(s[i].value) as int,
                None => 0,
            };
            if !tables@.contains(table) {
                r == Ok::<Option<IpNet>, NetlinkError>(None)
            } else {
                r matches Ok(Some(p)) && p.prefix_len == h[1] && match p.addr {
                    IpAddr::V4(a) => h[0] == 2 && a.bits == v - v % pow2((32 - h[1]) as nat) as int,
                    IpAddr::V6(a) => h[0] == 10 && a.bits == v - v % pow2(
                        (128 - h[1]) as nat,
                    ) as int,
                }
            }
        }),
{
    law_every_ordinary_route_counts(order, h, s, table_at, dst_at, tables@);
}

/// A datagram is cut into the messages that it was put together from, and a request is
/// one message for one table.
pub proof fn law_datagram_is_cut_into_its_messages(
    order: ByteOrder,
    bytes: &[u8],
    r: Split<'_>,
    seq: u32,
    family: u8,
    table: u32,
    asked: Vec<u8>,
    saw_route: bool,
    status: Result<(), NetlinkError>,
)
    requires
        call_ensures(messages_in, (order, bytes), r),
        call_ensures(request, (order, seq, family, table), asked),
        call_ensures(dump_status_in, (order, bytes, saw_route), status),
    ensures
        r@ == split(order, bytes@),
        asked@ == request_message(order, seq, family, table),
        status is Ok ==> bytes@.len() == 0 || bytes@.len() >= 4,
        bytes@.len() == 0 ==> status is Ok,
        bytes@.len() >= 4 ==> {
            let code = errno(order.value(bytes@.subrange(0, 4)) as u32);
            &&& status is Ok <==> code == 0 || (code == 2 && !saw_route)
            &&& status is Err ==> status == Err::<(), NetlinkError>(NetlinkError::DumpFailed(code))
        },
{
}

/// A system error is that of the kernel's answer, and a machine's byte order shows in how
/// it writes the number one.
pub proof fn law_answers_carry_system_errors(
    e: &NetlinkError,
    r: Option<i32>,
    one: [u8; 2],
    order: ByteOrder,
    n: usize,
    pad: usize,
)
    requires
        call_ensures(NetlinkError::system_error, (e,), r),
        call_ensures(order_of, (one,), order),
        call_ensures(padding, (n,), pad),
    ensures
        r is Some <==> *e is DumpFailed || *e is Dump,
        *e matches NetlinkError::DumpFailed(code) ==> r == Some(code),
        *e matches NetlinkError::Dump(code) ==> r == Some(code),
        one@ == seq![1u8, 0] ==> order is Little,
        one@ == seq![0u8, 1] ==> order is Big,
        pad < 4 && (n + pad) % 4 == 0,
{
    assert(one@[0] == one@[0]);
}

/// What follows the last attribute or the last message, and is not enough to fill it up,
/// is an error.
pub proof fn law_incomplete_filling_is_an_error(
    order: ByteOrder,
    b: Seq<u8>,
    d: Seq<u8>,
    width: nat,
    f: Found,
)
    requires
        b.len() >= 4,
        d.len() >= 16,
        4 <= order.value(b.subrange(0, 2)) < b.len() < order.value(b.subrange(0, 2)) + filling(
            order.value(b.subrange(0, 2)),
        ),
        16 <= order.value(d.subrange(0, 4)) < d.len() < order.value(d.subrange(0, 4)) + filling(
            order.value(d.subrange(0, 4)),
        ),
    ensures
        attributes(order, b, width, f) is Err,
        order.value(b.subrange(2, 4)) % 0x4000 != 1 && order.value(b.subrange(2, 4)) % 0x4000 != 15
            && order.value(b.subrange(2, 4)) <= 0xffff ==> attributes(order, b, width, f) == Err::<
            Found,
            NetlinkError,
        >(NetlinkError::AttributePadding),
        split(order, d).0.len() == 1,
        split(order, d).1 == Some(NetlinkError::MessagePadding),
{
}

} // verus!
