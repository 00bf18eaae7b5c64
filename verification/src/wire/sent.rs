//! What the messages that are sent say, read back octet by octet.
use vstd::arithmetic::power2::pow2;
use vstd::prelude::*;

use crate::addr::IpAddr;
use crate::bytes::{
    be, be_value, lemma_be2, lemma_be4, lemma_be_len, lemma_be_value2, lemma_be_value_of_be,
    lemma_pow256_small,
};
use crate::config::{Config, Peer};
use crate::net::IpNet;
use crate::wire::decode::padded;
use crate::wire::encode::{
    as_path, attribute, batch_ok, lemma_update_len, multiprotocol, next_hop_known, packed,
    packed_all, path_attributes, update_attributes, update_body,
};
use crate::wire::error::{unexpected_is, Error, Fault, FsmState};
use crate::wire::frame::{
    end_of_rib_body, framed, header, message, notification_body, Framed,
};
use crate::wire::laws::{lemma_network_octets, lemma_unpack_all, lemma_update_layout};
use crate::wire::open::{short_asn, Negotiated};
use crate::wire::validate::{refresh_of, withdrawn_len};

verus! {

/// The flags and the value of the first attribute of a type among whole attributes.
pub open spec fn carried(b: Seq<u8>, kind: u8) -> Option<(u8, Seq<u8>)>
    decreases b.len(),
{
    if b.len() < 3 {
        None
    } else {
        let h: int = if b[0] / 16 % 2 == 1 {
            4
        } else {
            3
        };
        let end = h + (if h == 4 {
            b[2] * 256 + b[3]
        } else {
            b[2] as int
        });
        if end > b.len() {
            None
        } else if b[1] == kind {
            Some((b[0], b.subrange(h, end)))
        } else {
            carried(b.skip(end), kind)
        }
    }
}

/// The octets of the withdrawn prefixes in the body of an UPDATE.
pub open spec fn gone_in(b: Seq<u8>) -> Seq<u8> {
    b.subrange(2, 2 + b[0] * 256 + b[1])
}

/// The octets of the attributes in the body of an UPDATE.
pub open spec fn attributes_in(b: Seq<u8>) -> Seq<u8> {
    let w = b[0] * 256 + b[1];
    b.subrange(4 + w, 4 + w + b[2 + w] * 256 + b[3 + w])
}

/// The octets after the attributes in the body of an UPDATE.
pub open spec fn told_in(b: Seq<u8>) -> Seq<u8> {
    let w = b[0] * 256 + b[1];
    b.skip(4 + w + b[2 + w] * 256 + b[3 + w])
}

/// An attribute is found behind those before it.
proof fn lemma_carried(flags: u8, kind: u8, data: Seq<u8>, rest: Seq<u8>, wanted: u8)
    requires
        flags % 64 == 0,
        data.len() <= 0xffff,
    ensures
        ({
            let set: u8 = if data.len() > 255 {
                (flags + 16) as u8
            } else {
                flags
            };
            carried(attribute(flags, kind, data) + rest, wanted) == if kind == wanted {
                Some((set, data))
            } else {
                carried(rest, wanted)
            }
        }),
{
    let b = attribute(flags, kind, data) + rest;
    let l = data.len() as int;
    assert(flags % 64 == 0 ==> flags | 0x10 == flags + 16) by (bit_vector);
    if data.len() > 255 {
        lemma_be2(data.len());
        assert(b[2] * 256 + b[3] == l);
        assert(b.subrange(4, 4 + l) =~= data);
        assert(b.skip(4 + l) =~= rest);
    } else {
        assert(b.subrange(3, 3 + l) =~= data);
        assert(b.skip(3 + l) =~= rest);
    }
}

/// The parts of an UPDATE body, read octet by octet.
proof fn lemma_layout(cfg: Config, p: Peer, n: Negotiated, prefixes: Seq<IpNet>, withdraw: bool)
    requires
        batch_ok(prefixes),
        next_hop_known(p, prefixes[0].addr.is_ipv6(), withdraw),
    ensures
        ({
            let b = update_body(cfg, p, n, prefixes, withdraw);
            let v6 = prefixes[0].addr.is_ipv6();
            let encoded = packed_all(prefixes);
            &&& gone_in(b) == if withdraw && !v6 {
                encoded
            } else {
                Seq::empty()
            }
            &&& attributes_in(b) == update_attributes(cfg, p, n, encoded, v6, withdraw)
            &&& told_in(b) == if !withdraw && !v6 {
                encoded
            } else {
                Seq::empty()
            }
        }),
{
    let b = update_body(cfg, p, n, prefixes, withdraw);
    lemma_update_layout(cfg, p, n, prefixes, withdraw);
    lemma_be_value2(b.take(2));
    let w = withdrawn_len(b);
    lemma_be_value2(b.subrange(2 + w, 4 + w));
}

/// What the path attributes carry of each type, whatever follows them.
proof fn lemma_path_carries(cfg: Config, p: Peer, n: Negotiated, rest: Seq<u8>, wanted: u8)
    ensures
        ({
            let internal = cfg.asn == p.remote_asn;
            let long = seq![2u8, 1] + be(cfg.asn as nat, 4);
            carried(path_attributes(cfg, p, n) + rest, wanted) == if wanted == 1 {
                Some((0x40u8, seq![2u8]))
            } else if wanted == 2 {
                Some((0x40u8, as_path(cfg, p, n)))
            } else if wanted == 17 && !n.asn4 && cfg.asn > 0xffff && !internal {
                Some((0xc0u8, long))
            } else if wanted == 5 && internal {
                Some((0x40u8, be(100, 4)))
            } else {
                carried(rest, wanted)
            }
        }),
{
    let internal = cfg.asn == p.remote_asn;
    let long = seq![2u8, 1] + be(cfg.asn as nat, 4);
    lemma_be_len(cfg.asn as nat, 4);
    lemma_be_len(short_asn(cfg.asn) as nat, 2);
    lemma_be_len(100, 4);
    let has_as4 = !n.asn4 && cfg.asn > 0xffff && !internal;
    let as4 = if has_as4 {
        attribute(0xc0, 17, long)
    } else {
        Seq::empty()
    };
    let preference = if internal {
        attribute(0x40, 5, be(100, 4))
    } else {
        Seq::empty()
    };
    let tail2 = preference + rest;
    let tail1 = as4 + tail2;
    let path = attribute(0x40, 2, as_path(cfg, p, n));
    let tail0 = path + tail1;
    assert(path_attributes(cfg, p, n) + rest =~= attribute(0x40, 1, seq![2u8]) + tail0);
    lemma_carried(0x40, 1, seq![2u8], tail0, wanted);
    lemma_carried(0x40, 2, as_path(cfg, p, n), tail1, wanted);
    if has_as4 {
        lemma_carried(0xc0, 17, long, tail2, wanted);
    } else {
        assert(tail1 =~= tail2);
    }
    if internal {
        lemma_carried(0x40, 5, be(100, 4), rest, wanted);
    } else {
        assert(tail2 =~= rest);
    }
}

/// The octets of an ASN spell it.
proof fn lemma_asn(asn: u32)
    ensures
        be(asn as nat, 4).len() == 4,
        be_value(be(asn as nat, 4)) == asn,
        (seq![2u8, 1] + be(asn as nat, 4)).skip(2) =~= be(asn as nat, 4),
        be(short_asn(asn) as nat, 2).len() == 2,
        be_value(be(short_asn(asn) as nat, 2)) == if asn <= 65535 {
            asn as int
        } else {
            23456
        },
        (seq![2u8, 1] + be(short_asn(asn) as nat, 2)).skip(2) =~= be(short_asn(asn) as nat, 2),
{
    lemma_pow256_small();
    lemma_be_len(asn as nat, 4);
    lemma_be_len(short_asn(asn) as nat, 2);
    lemma_be_value_of_be(asn as nat, 4);
    lemma_be_value_of_be(short_asn(asn) as nat, 2);
}

/// What every announcement carries. The origin is incomplete. Towards another AS the
/// path is one sequence of one ASN, the local one, and there is no local preference;
/// inside the AS the path is empty and the local preference is 100. Where only two
/// octets were agreed on and the local ASN needs four, the path holds 23456 and the
/// ASN stands in a path of its own.
pub proof fn law_announcement_carries_the_local_asn(
    cfg: Config,
    p: Peer,
    n: Negotiated,
    prefixes: Seq<IpNet>,
)
    requires
        batch_ok(prefixes),
        next_hop_known(p, prefixes[0].addr.is_ipv6(), false),
    ensures
        ({
            let a = attributes_in(update_body(cfg, p, n, prefixes, false));
            &&& carried(a, 1) == Some((0x40u8, seq![2u8]))
            &&& cfg.asn == p.remote_asn ==> {
                &&& carried(a, 2) == Some((0x40u8, Seq::<u8>::empty()))
                &&& carried(a, 5) == Some((0x40u8, seq![0u8, 0, 0, 100]))
                &&& carried(a, 17) is None
            }
            &&& cfg.asn != p.remote_asn ==> {
                &&& carried(a, 5) is None
                &&& carried(a, 2) matches Some((flags, path)) && flags == 0x40 && path[0] == 2
                    && path[1] == 1 && if n.asn4 {
                    path.len() == 6 && be_value(path.skip(2)) == cfg.asn
                } else {
                    path.len() == 4 && be_value(path.skip(2)) == if cfg.asn <= 65535 {
                        cfg.asn as int
                    } else {
                        23456
                    }
                }
                &&& n.asn4 || cfg.asn <= 65535 ==> carried(a, 17) is None
                &&& !n.asn4 && cfg.asn > 65535 ==> (carried(a, 17) matches Some((flags, path))
                    && flags == 0xc0 && path.len() == 6 && path[0] == 2 && path[1] == 1
                    && be_value(path.skip(2)) == cfg.asn)
            }
            &&& carried(a, 4) is None && carried(a, 6) is None && carried(a, 7) is None
            &&& carried(a, 8) is None && carried(a, 15) is None
        }),
{
    let v6 = prefixes[0].addr.is_ipv6();
    let encoded = packed_all(prefixes);
    let a = attributes_in(update_body(cfg, p, n, prefixes, false));
    lemma_layout(cfg, p, n, prefixes, false);
    lemma_asn(cfg.asn);
    lemma_be4(100);
    assert(be(100, 4) =~= seq![0u8, 0, 0, 100]);
    let kinds = seq![1u8, 2, 4, 5, 6, 7, 8, 15, 17];
    assert forall|i: int| 0 <= i < kinds.len() implies carried(a, #[trigger] kinds[i]) == carried(
        path_attributes(cfg, p, n) + Seq::<u8>::empty(),
        kinds[i],
    ) by {
        lemma_announcement_carries(cfg, p, n, prefixes, kinds[i]);
        lemma_path_carries(cfg, p, n, Seq::empty(), kinds[i]);
    }
    assert forall|i: int| 0 <= i < kinds.len() implies carried(a, #[trigger] kinds[i]) == (
    if kinds[i] == 1 {
        Some((0x40u8, seq![2u8]))
    } else if kinds[i] == 2 {
        Some((0x40u8, as_path(cfg, p, n)))
    } else if kinds[i] == 17 && !n.asn4 && cfg.asn > 0xffff && cfg.asn != p.remote_asn {
        Some((0xc0u8, seq![2u8, 1] + be(cfg.asn as nat, 4)))
    } else if kinds[i] == 5 && cfg.asn == p.remote_asn {
        Some((0x40u8, be(100, 4)))
    } else {
        None
    }) by {
        lemma_path_carries(cfg, p, n, Seq::empty(), kinds[i]);
    }
    assert(kinds[0] == 1 && kinds[1] == 2 && kinds[2] == 4 && kinds[3] == 5 && kinds[4] == 6);
    assert(kinds[5] == 7 && kinds[6] == 8 && kinds[7] == 15 && kinds[8] == 17);
}

/// What an announcement carries of each type.
proof fn lemma_announcement_carries(
    cfg: Config,
    p: Peer,
    n: Negotiated,
    prefixes: Seq<IpNet>,
    wanted: u8,
)
    requires
        batch_ok(prefixes),
        next_hop_known(p, prefixes[0].addr.is_ipv6(), false),
    ensures
        ({
            let a = attributes_in(update_body(cfg, p, n, prefixes, false));
            let v6 = prefixes[0].addr.is_ipv6();
            let data = multiprotocol(p, packed_all(prefixes), false);
            carried(a, wanted) == if wanted == 14 && v6 {
                Some(
                    (
                        if data.len() > 255 {
                            0x90u8
                        } else {
                            0x80u8
                        },
                        data,
                    ),
                )
            } else if wanted == 3 && !v6 {
                Some((0x40u8, p.nh4()->0.octets()))
            } else {
                carried(path_attributes(cfg, p, n) + Seq::<u8>::empty(), wanted)
            }
        }),
{
    let v6 = prefixes[0].addr.is_ipv6();
    let encoded = packed_all(prefixes);
    let nothing = Seq::<u8>::empty();
    lemma_layout(cfg, p, n, prefixes, false);
    lemma_unpack_all(prefixes, v6);
    lemma_update_len(cfg, p, n, encoded, v6, false);
    let rest = path_attributes(cfg, p, n);
    assert(rest + nothing =~= rest);
    lemma_path_carries(cfg, p, n, nothing, wanted);
    if v6 {
        lemma_carried(0x80, 14, multiprotocol(p, encoded, false), rest, wanted);
    } else {
        let hop = p.nh4()->0.octets();
        lemma_be_len(p.nh4()->0.bits as nat, 4);
        let last = attribute(0x40, 3, hop);
        lemma_path_carries(cfg, p, n, last, wanted);
        lemma_carried(0x40, 3, hop, nothing, wanted);
        assert(last + nothing =~= last);
    }
}

/// An IPv4 announcement names the next hop that is configured, else the local address
/// of the session, and has its prefixes after the attributes.
pub proof fn law_ipv4_announcement_names_its_next_hop(
    cfg: Config,
    p: Peer,
    n: Negotiated,
    prefixes: Seq<IpNet>,
)
    requires
        batch_ok(prefixes),
        prefixes[0].addr is V4,
        p.next_hop_v4 is Some || p.local_address is V4,
    ensures
        ({
            let b = update_body(cfg, p, n, prefixes, false);
            let a = attributes_in(b);
            &&& carried(a, 3) matches Some((flags, hop)) && flags == 0x40 && hop.len() == 4
                && be_value(hop) == match (p.next_hop_v4, p.local_address) {
                (Some(x), _) => x.bits as int,
                (None, IpAddr::V4(x)) => x.bits as int,
                (None, IpAddr::V6(_)) => -1,
            }
            &&& carried(a, 14) is None
            &&& gone_in(b).len() == 0
            &&& told_in(b) == packed_all(prefixes)
        }),
{
    let hop = p.nh4()->0;
    lemma_layout(cfg, p, n, prefixes, false);
    lemma_announcement_carries(cfg, p, n, prefixes, 3);
    lemma_announcement_carries(cfg, p, n, prefixes, 14);
    lemma_path_carries(cfg, p, n, Seq::empty(), 14);
    lemma_be_len(hop.bits as nat, 4);
    lemma_pow256_small();
    lemma_be_value_of_be(hop.bits as nat, 4);
}

/// An IPv6 announcement has its prefixes in its first attribute, behind the family, the
/// global next hop that is configured or else the local address of the session, and the
/// link-local one where there is one.
pub proof fn law_ipv6_announcement_names_its_next_hops(
    cfg: Config,
    p: Peer,
    n: Negotiated,
    prefixes: Seq<IpNet>,
)
    requires
        batch_ok(prefixes),
        prefixes[0].addr is V6,
        p.next_hop_v6 is Some || p.local_address is V6,
    ensures
        ({
            let b = update_body(cfg, p, n, prefixes, false);
            let a = attributes_in(b);
            &&& a[1] == 14
            &&& carried(a, 14) matches Some((flags, d)) && flags / 32 == 4 && d[0] == 0 && d[1] == 2
                && d[2] == 1 && be_value(d.subrange(4, 20)) == match (
                p.next_hop_v6,
                p.local_address,
            ) {
                (Some(x), _) => x.bits as int,
                (None, IpAddr::V6(x)) => x.bits as int,
                (None, IpAddr::V4(_)) => -1,
            } && match p.next_hop_v6_link_local {
                Some(x) => d[3] == 32 && be_value(d.subrange(20, 36)) == x.bits && d[36] == 0
                    && d.skip(37) == packed_all(prefixes),
                None => d[3] == 16 && d[20] == 0 && d.skip(21) == packed_all(prefixes),
            }
            &&& carried(a, 3) is None
            &&& gone_in(b).len() == 0
            &&& told_in(b).len() == 0
        }),
{
    let hop = p.nh6()->0;
    let encoded = packed_all(prefixes);
    let d = multiprotocol(p, encoded, false);
    lemma_layout(cfg, p, n, prefixes, false);
    lemma_announcement_carries(cfg, p, n, prefixes, 3);
    lemma_announcement_carries(cfg, p, n, prefixes, 14);
    lemma_path_carries(cfg, p, n, Seq::empty(), 3);
    lemma_pow256_small();
    lemma_be_len(hop.bits as nat, 16);
    lemma_be_value_of_be(hop.bits as nat, 16);
    assert(d.subrange(4, 20) =~= hop.octets());
    match p.next_hop_v6_link_local {
        Some(x) => {
            lemma_be_len(x.bits as nat, 16);
            lemma_be_value_of_be(x.bits as nat, 16);
            assert(d.subrange(20, 36) =~= x.octets());
            assert(d.skip(37) =~= encoded);
        },
        None => {
            assert(d.skip(21) =~= encoded);
        },
    }
}

/// A withdrawal holds its prefixes and nothing else: IPv4 ones before the attributes, of
/// which there are none, IPv6 ones in the only attribute, behind their family.
pub proof fn law_withdrawal_holds_its_prefixes_alone(
    cfg: Config,
    p: Peer,
    n: Negotiated,
    prefixes: Seq<IpNet>,
)
    requires
        batch_ok(prefixes),
    ensures
        ({
            let b = update_body(cfg, p, n, prefixes, true);
            let a = attributes_in(b);
            &&& told_in(b).len() == 0
            &&& prefixes[0].addr is V4 ==> gone_in(b) == packed_all(prefixes) && a.len() == 0
            &&& prefixes[0].addr is V6 ==> {
                &&& gone_in(b).len() == 0
                &&& a[1] == 15
                &&& carried(a, 15) matches Some((flags, d)) && flags / 32 == 4 && d == seq![
                    0u8,
                    2,
                    1,
                ] + packed_all(prefixes) && a.len() == d.len() + if d.len() > 255 {
                    4int
                } else {
                    3
                }
            }
        }),
{
    let v6 = prefixes[0].addr.is_ipv6();
    let encoded = packed_all(prefixes);
    let nothing = Seq::<u8>::empty();
    lemma_layout(cfg, p, n, prefixes, true);
    lemma_unpack_all(prefixes, v6);
    lemma_update_len(cfg, p, n, encoded, v6, true);
    if v6 {
        let d = multiprotocol(p, encoded, true);
        lemma_carried(0x80, 15, d, nothing, 15);
        lemma_be_len(d.len(), 2);
        assert(attribute(0x80, 15, d) + nothing =~= attribute(0x80, 15, d));
    }
}

/// Prefixes are written one after the other.
pub proof fn law_prefixes_are_written_in_turn(a: Seq<IpNet>, b: Seq<IpNet>, p: IpNet)
    ensures
        packed_all(Seq::empty()) == Seq::<u8>::empty(),
        packed_all(seq![p]) == packed(p),
        packed_all(a + b) == packed_all(a) + packed_all(b),
    decreases b.len(),
{
    let none = Seq::<IpNet>::empty();
    assert(packed_all(none) =~= Seq::<u8>::empty());
    assert(seq![p].drop_last() =~= none);
    assert(packed_all(seq![p]) =~= packed(p));
    if b.len() == 0 {
        assert(a + b =~= a);
        assert(packed_all(a + b) =~= packed_all(a) + packed_all(b));
    } else {
        law_prefixes_are_written_in_turn(a, b.drop_last(), p);
        assert((a + b).drop_last() =~= a + b.drop_last());
        assert(packed_all(a + b) =~= packed_all(a) + packed_all(b));
    }
}

/// A prefix is written as its length and the fewest octets that hold so many bits; with
/// zeros after them they spell the address without its host bits.
pub proof fn law_prefix_is_written_in_the_fewest_octets(p: IpNet)
    requires
        p.wf(),
    ensures
        packed(p)[0] == p.prefix_len,
        packed(p).len() == 1 + (p.prefix_len + 7) / 8,
        match p.addr {
            IpAddr::V4(a) => be_value(
                packed(p).skip(1) + Seq::new((5 - packed(p).len()) as nat, |i: int| 0u8),
            ) == a.bits - a.bits as int % pow2((32 - p.prefix_len) as nat) as int,
            IpAddr::V6(a) => be_value(
                packed(p).skip(1) + Seq::new((17 - packed(p).len()) as nat, |i: int| 0u8),
            ) == a.bits - a.bits as int % pow2((128 - p.prefix_len) as nat) as int,
        },
{
    lemma_network_octets(p);
    let w = (p.addr.width() / 8) as nat;
    let s = packed(p).skip(1);
    let zeros = Seq::new((w + 1 - packed(p).len()) as nat, |i: int| 0u8);
    assert(s =~= crate::wire::encode::network_octets(p).take(s.len() as int));
    assert(s + zeros =~= padded(s, w));
}

/// A message is sixteen octets of ones, its length in two, its type, and its body.
pub proof fn law_message_is_framed(kind: u8, body: Seq<u8>, i: int)
    requires
        body.len() + 19 <= 4096,
    ensures
        message(kind, body).len() == body.len() + 19,
        0 <= i < 16 ==> message(kind, body)[i] == 255,
        message(kind, body)[16] * 256 + message(kind, body)[17] == body.len() + 19,
        message(kind, body)[18] == kind,
        message(kind, body).skip(19) == body,
{
    lemma_be2(body.len() + 19);
    assert(message(kind, body).skip(19) =~= body);
}

/// A header is acceptable exactly where its marker is all ones, its type is one of five,
/// and its length is at most 4096 and what the type allows: at least 29 for an OPEN, 23
/// for an UPDATE and 21 for a NOTIFICATION, 19 for a KEEPALIVE and 23 for a
/// ROUTE-REFRESH. What is refused is named: the marker, the length or the type.
pub proof fn law_header_is_checked(h: Seq<u8>)
    requires
        h.len() == 19,
    ensures
        ({
            let marked = forall|i: int| 0 <= i < 16 ==> #[trigger] h[i] == 255;
            let len = h[16] * 256 + h[17];
            let kind = h[18];
            if !marked {
                header(h) matches Err(f) && f.code == 1 && f.subcode == 1 && f.data.len() == 0
            } else if len < 19 || len > 4096 {
                header(h) matches Err(f) && f.code == 1 && f.subcode == 2 && f.data == seq![
                    h[16],
                    h[17],
                ]
            } else if kind < 1 || kind > 5 {
                header(h) matches Err(f) && f.code == 1 && f.subcode == 3 && f.data == seq![kind]
            } else if (kind == 1 && len < 29) || (kind == 2 && len < 23) || (kind == 3 && len < 21)
                || (kind == 4 && len != 19) || (kind == 5 && len != 23) {
                header(h) matches Err(f) && f.code == 1 && f.subcode == 2 && f.data == seq![
                    h[16],
                    h[17],
                ]
            } else {
                header(h) matches Ok((k, l)) && k == kind && l == len - 19
            }
        }),
{
    lemma_be_value2(h.subrange(16, 18));
    assert(h.subrange(16, 18) =~= seq![h[16], h[17]]);
    let marked = forall|i: int| 0 <= i < 16 ==> #[trigger] h[i] == 255;
    if marked {
        assert(h.take(16) =~= crate::wire::frame::marker());
    } else {
        let i = choose|i: int| 0 <= i < 16 && #[trigger] h[i] != 255;
        assert(h.take(16)[i] == h[i]);
    }
}

/// A NOTIFICATION holds its code, its subcode, and its data up to what fits.
pub proof fn law_notification_holds_its_data(code: u8, subcode: u8, data: Seq<u8>, i: int)
    ensures
        notification_body(code, subcode, data)[0] == code,
        notification_body(code, subcode, data)[1] == subcode,
        notification_body(code, subcode, data).len() == 2 + if data.len() <= 4075 {
            data.len() as int
        } else {
            4075
        },
        0 <= i < data.len() && i < 4075 ==> notification_body(code, subcode, data)[2 + i]
            == data[i],
{
}

/// The empty UPDATEs that mark the end of the announcements, octet by octet.
pub proof fn law_end_of_rib_is_empty()
    ensures
        end_of_rib_body(false) == seq![0u8, 0, 0, 0],
        gone_in(end_of_rib_body(true)).len() == 0,
        told_in(end_of_rib_body(true)).len() == 0,
        carried(attributes_in(end_of_rib_body(true)), 15) == Some((0x80u8, seq![0u8, 2, 1])),
{
    let a = attributes_in(end_of_rib_body(true));
    assert(a =~= seq![0x80u8, 15, 3, 0, 2, 1]);
    assert(a.subrange(3, 6) =~= seq![0u8, 2, 1]);
}

/// A refresh counts exactly where it asks for unicast of a family that is exchanged, and
/// names no subtype.
pub proof fn law_refresh_names_an_exchanged_family(b: Seq<u8>, n: Negotiated)
    requires
        b.len() == 4,
    ensures
        refresh_of(b, n) == Some(false) <==> b == seq![0u8, 1, 0, 1] && n.ipv4,
        refresh_of(b, n) == Some(true) <==> b == seq![0u8, 2, 0, 1] && n.ipv6,
{
    lemma_be_value2(b.take(2));
    if refresh_of(b, n) == Some(false) {
        assert(b =~= seq![0u8, 1, 0, 1]);
    }
    if refresh_of(b, n) == Some(true) {
        assert(b =~= seq![0u8, 2, 0, 1]);
    }
}

/// A message that a state has no use for is answered by its type and the number of the
/// state; a NOTIFICATION is not answered.
pub proof fn law_unexpected_message_is_answered(
    state: FsmState,
    kind: u8,
    body: Seq<u8>,
    e: Error,
)
    requires
        unexpected_is(state, kind, body, e),
    ensures
        kind == 3 <==> e is Other,
        e matches Error::Protocol(p) ==> p.code == 5 && p.data@ == seq![kind] && p.subcode
            == match state {
            FsmState::OpenSent => 1int,
            FsmState::OpenConfirm => 2,
            FsmState::Established => 3,
        },
{
}

/// A header that is refused is refused before anything more is read; what came before a
/// whole header is waited for.
pub proof fn law_refused_header_ends_reading(b: Seq<u8>)
    ensures
        b.len() < 19 ==> framed(b) == Ok::<Framed, Fault>(Framed::Needs((19 - b.len()) as nat)),
        b.len() >= 19 ==> (header(b.take(19)) matches Err(f) ==> framed(b) == Err::<Framed, Fault>(
            f,
        )),
{
}

} // verus!
