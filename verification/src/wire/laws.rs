//! What is sent can be received: laws that relate the encoders and the checks.
use vstd::arithmetic::div_mod::lemma_fundamental_div_mod;
use vstd::arithmetic::power2::{lemma_pow2_adds, lemma_pow2_pos, pow2};
use vstd::prelude::*;

use crate::bytes::{
    be, be_value, lemma_be2, lemma_be4, lemma_be_len, lemma_be_split, lemma_be_value2,
    lemma_be_value_of_be, lemma_be_zero, pow256,
};
use crate::config::{valid_v4, Config, Peer};
use crate::net::{law_trunc_is_idempotent, lemma_first_bounds, IpNet};
use crate::wire::decode::{
    announced_by, announced_in, announced_prefixes, padded, prefix_of, unpacked,
};
use crate::wire::encode::{
    as_path, attribute, batch_ok, lemma_update_len, multiprotocol,
    network_octets, next_hop_known, octets_for, packed, packed_all, path_attributes,
    update_attributes, update_body,
};
use crate::wire::error::Fault;
use crate::wire::frame::{end_of_rib_body, length_fits, MAX_MESSAGE, UPDATE};
use crate::wire::open::{short_asn, Negotiated};
use crate::wire::validate::{
    attributes, attributes_len, effect, header_len, multiprotocol_effect, packed_ok, raise,
    segments_ok, update_outcome, value_len, value_ok, walk_start, withdrawn_len, UpdateAction,
    Walk,
};

verus! {

/// 256 to the power `k` is two to the power `8 * k`.
proof fn lemma_pow256_is_pow2(k: nat)
    ensures
        pow256(k) == pow2(8 * k),
    decreases k,
{
    if k == 0 {
        vstd::arithmetic::power2::lemma2_to64();
    } else {
        lemma_pow256_is_pow2((k - 1) as nat);
        lemma_pow2_adds(8, (8 * (k - 1)) as nat);
        vstd::arithmetic::power2::lemma2_to64();
    }
}

/// The octets of a network address that its length does not reach are zero.
pub proof fn lemma_network_octets(p: IpNet)
    requires
        p.wf(),
    ensures
        ({
            let w = (p.addr.width() / 8) as nat;
            let n = octets_for(p.prefix_len) as nat;
            &&& n <= w
            &&& network_octets(p).len() == w
            &&& padded(network_octets(p).take(n as int), w) =~= network_octets(p)
            &&& be_value(network_octets(p)) == p.first()
        }),
{
    let w = (p.addr.width() / 8) as nat;
    let n = octets_for(p.prefix_len) as nat;
    let low = (w - n) as nat;
    let first = p.first() as nat;
    lemma_first_bounds(p);
    lemma_be_len(first, w);
    assert(pow256(4) == 0x1_0000_0000 && pow256(16)
        == 0x1_0000_0000_0000_0000_0000_0000_0000_0000) by {
        reveal_with_fuel(pow256, 17);
    }
    lemma_be_value_of_be(first, w);
    assert(first % pow256(low) == 0) by {
        let m = (p.addr.width() - p.prefix_len) as nat;
        let extra = (m - 8 * low) as nat;
        lemma_pow256_is_pow2(low);
        lemma_pow2_adds(8 * low, extra);
        lemma_pow2_pos(8 * low);
        lemma_pow2_pos(extra);
        lemma_pow2_pos(m);
        lemma_fundamental_div_mod(first as int, pow2(m) as int);
        let q = first as int / pow2(m) as int;
        let a = pow2(8 * low) as int;
        let b = pow2(extra) as int;
        assert(first as int == a * (b * q)) by (nonlinear_arith)
            requires
                first as int == (a * b) * q,
        ;
        vstd::arithmetic::div_mod::lemma_mod_multiples_basic(b * q, a);
        assert(a * (b * q) == (b * q) * a) by (nonlinear_arith);
    }
    lemma_be_split(first, n, low);
    lemma_be_zero(low);
    lemma_be_len(first / pow256(low), n);
    assert(network_octets(p) =~= be(first / pow256(low), n) + Seq::new(low, |i: int| 0u8));
}

/// One packed prefix is unpacked again, and what follows is left.
proof fn lemma_unpack_one(p: IpNet, rest: Seq<u8>)
    requires
        p.wf(),
    ensures
        ({
            let b = packed(p) + rest;
            let v6 = p.addr.is_ipv6();
            let size = octets_for(p.prefix_len) as int;
            &&& b.len() == 1 + size + rest.len()
            &&& b[0] == p.prefix_len
            &&& b.skip(1 + size) =~= rest
            &&& unpacked(b, v6) == seq![p.spec_trunc()] + unpacked(rest, v6)
        }),
{
    let b = packed(p) + rest;
    let v6 = p.addr.is_ipv6();
    let size = octets_for(p.prefix_len) as int;
    lemma_network_octets(p);
    lemma_first_bounds(p);
    law_trunc_is_idempotent(p);
    assert(b.subrange(1, 1 + size) =~= network_octets(p).take(size));
    assert(b.skip(1 + size) =~= rest);
    assert(prefix_of(b.subrange(1, 1 + size), b[0], v6) == p.spec_trunc().spec_trunc());
}

/// Packing starts with the first prefix.
proof fn lemma_packed_first(s: Seq<IpNet>)
    requires
        s.len() > 0,
    ensures
        packed_all(s) =~= packed(s[0]) + packed_all(s.skip(1)),
    decreases s.len(),
{
    if s.len() == 1 {
        assert(s.drop_last() =~= Seq::<IpNet>::empty());
        assert(s.skip(1) =~= Seq::<IpNet>::empty());
    } else {
        lemma_packed_first(s.drop_last());
        assert(s.drop_last().skip(1) =~= s.skip(1).drop_last());
        assert(s.skip(1).last() == s.last());
    }
}

/// The truncated prefixes, in order.
pub open spec fn truncated(s: Seq<IpNet>) -> Seq<IpNet> {
    s.map_values(|p: IpNet| p.spec_trunc())
}

/// Packed prefixes of one family are well formed and are unpacked again.
pub proof fn lemma_unpack_all(s: Seq<IpNet>, v6: bool)
    requires
        forall|i: int|
            0 <= i < s.len() ==> (#[trigger] s[i]).wf() && s[i].addr.is_ipv6() == v6,
    ensures
        packed_ok(
            packed_all(s),
            if v6 {
                128
            } else {
                32
            },
        ),
        unpacked(packed_all(s), v6) == truncated(s),
        s.len() <= packed_all(s).len() <= 17 * s.len(),
    decreases s.len(),
{
    if s.len() == 0 {
        assert(packed_all(s) =~= Seq::<u8>::empty());
        assert(truncated(s) =~= Seq::<IpNet>::empty());
    } else {
        let rest = s.skip(1);
        assert forall|i: int| 0 <= i < rest.len() implies (#[trigger] rest[i]).wf()
            && rest[i].addr.is_ipv6() == v6 by {
            assert(rest[i] == s[i + 1]);
        }
        lemma_unpack_all(rest, v6);
        lemma_packed_first(s);
        lemma_unpack_one(s[0], packed_all(rest));
        assert(truncated(s) =~= seq![s[0].spec_trunc()] + truncated(rest));
    }
}

/// A list that starts with one whole attribute has its effect first.
proof fn lemma_attribute_first(
    n: Negotiated,
    flags: u8,
    kind: u8,
    data: Seq<u8>,
    rest: Seq<u8>,
    w: Walk,
)
    requires
        flags % 64 == 0,
        data.len() <= 0xffff,
    ensures
        ({
            let raw = attribute(flags, kind, data);
            let set: u8 = if data.len() > 255 {
                (flags + 16) as u8
            } else {
                flags
            };
            &&& set / 64 == flags / 64
            &&& set / 32 % 2 == 0
            &&& attributes(n, raw + rest, w) == match effect(n, set, kind, data, raw, w) {
                Err(f) => Err(f),
                Ok(x) => attributes(n, rest, x),
            }
            &&& announced_in(raw + rest) == announced_by(kind, data) + announced_in(rest)
        }),
{
    let raw = attribute(flags, kind, data);
    let b = raw + rest;
    assert(flags % 64 == 0 ==> flags | 0x10 == flags + 16) by (bit_vector);
    if data.len() > 255 {
        lemma_be2(data.len());
        lemma_be_len(data.len(), 2);
        lemma_be_value_of_be(data.len(), 2);
        assert(b.subrange(2, 4) =~= be(data.len(), 2));
        assert(b.subrange(4, 4 + data.len() as int) =~= data);
        assert(b.skip(4 + data.len() as int) =~= rest);
        assert(b.take(4 + data.len() as int) =~= raw);
    } else {
        assert(b.subrange(3, 3 + data.len() as int) =~= data);
        assert(b.skip(3 + data.len() as int) =~= rest);
        assert(b.take(3 + data.len() as int) =~= raw);
    }
}

/// The walk after the attributes of an announcement.
spec fn after_path(cfg: Config, p: Peer, n: Negotiated, w: Walk) -> Walk {
    let seen = w.seen.insert(1).insert(2);
    let seen = if !n.asn4 && cfg.asn > 0xffff && cfg.asn != p.remote_asn {
        seen.insert(17)
    } else {
        seen
    };
    let seen = if cfg.asn == p.remote_asn {
        seen.insert(5)
    } else {
        seen
    };
    Walk { seen, ..w }
}

/// The AS path that is sent is a valid one.
proof fn lemma_as_path(cfg: Config, p: Peer, n: Negotiated)
    ensures
        value_ok(n, 2, as_path(cfg, p, n)),
        as_path(cfg, p, n).len() <= 6,
        segments_ok(seq![2u8, 1] + be(cfg.asn as nat, 4), 4),
        (seq![2u8, 1] + be(cfg.asn as nat, 4)).len() == 6,
{
    lemma_be_len(cfg.asn as nat, 4);
    lemma_be_len(short_asn(cfg.asn) as nat, 2);
    let long = seq![2u8, 1] + be(cfg.asn as nat, 4);
    let short = seq![2u8, 1] + be(short_asn(cfg.asn) as nat, 2);
    assert(long.skip(6) =~= Seq::<u8>::empty());
    assert(short.skip(4) =~= Seq::<u8>::empty());
    assert(segments_ok(Seq::<u8>::empty(), 4));
    assert(segments_ok(Seq::<u8>::empty(), 2));
    assert(segments_ok(long, 4));
    assert(segments_ok(short, 2));
}

/// The attributes of an announcement raise nothing, whatever follows them.
proof fn lemma_path_attributes(cfg: Config, p: Peer, n: Negotiated, rest: Seq<u8>, w: Walk)
    requires
        n.internal == (cfg.asn == p.remote_asn),
        !w.seen.contains(1),
        !w.seen.contains(2),
        !w.seen.contains(5),
        !w.seen.contains(17),
    ensures
        attributes(n, path_attributes(cfg, p, n) + rest, w) == attributes(
            n,
            rest,
            after_path(cfg, p, n, w),
        ),
        announced_in(path_attributes(cfg, p, n) + rest) == announced_in(rest),
{
    let origin = attribute(0x40, 1, seq![2u8]);
    let path = attribute(0x40, 2, as_path(cfg, p, n));
    let as4_data = seq![2u8, 1] + be(cfg.asn as nat, 4);
    let has_as4 = !n.asn4 && cfg.asn > 0xffff && cfg.asn != p.remote_asn;
    let as4 = if has_as4 {
        attribute(0xc0, 17, as4_data)
    } else {
        Seq::empty()
    };
    let internal = cfg.asn == p.remote_asn;
    let preference = if internal {
        attribute(0x40, 5, be(100, 4))
    } else {
        Seq::empty()
    };
    lemma_as_path(cfg, p, n);
    lemma_be_len(100, 4);
    let w1 = Walk { seen: w.seen.insert(1), ..w };
    let w2 = Walk { seen: w1.seen.insert(2), ..w };
    let w3 = if has_as4 {
        Walk { seen: w2.seen.insert(17), ..w }
    } else {
        w2
    };
    let tail2 = preference + rest;
    let tail1 = as4 + tail2;
    let tail0 = path + tail1;
    assert(path_attributes(cfg, p, n) + rest =~= origin + tail0);
    let none = Seq::<IpNet>::empty();
    lemma_attribute_first(n, 0x40, 1, seq![2u8], tail0, w);
    assert(attributes(n, origin + tail0, w) == attributes(n, tail0, w1));
    assert(none + announced_in(tail0) =~= announced_in(tail0));
    lemma_attribute_first(n, 0x40, 2, as_path(cfg, p, n), tail1, w1);
    assert(attributes(n, tail0, w1) == attributes(n, tail1, w2));
    assert(none + announced_in(tail1) =~= announced_in(tail1));
    if has_as4 {
        lemma_attribute_first(n, 0xc0, 17, as4_data, tail2, w2);
        assert(none + announced_in(tail2) =~= announced_in(tail2));
    } else {
        assert(tail1 =~= tail2);
    }
    assert(attributes(n, tail1, w2) == attributes(n, tail2, w3));
    if internal {
        lemma_attribute_first(n, 0x40, 5, be(100, 4), rest, w3);
        assert(none + announced_in(rest) =~= announced_in(rest));
    } else {
        assert(tail2 =~= rest);
    }
}

/// The multiprotocol attribute of a batch is accepted, and an announcement's
/// prefixes are read back.
proof fn lemma_multiprotocol(p: Peer, prefixes: Seq<IpNet>, withdraw: bool, flags: u8)
    requires
        batch_ok(prefixes),
        prefixes[0].addr.is_ipv6(),
        next_hop_known(p, true, withdraw),
        flags / 64 == 2,
        flags / 32 % 2 == 0,
    ensures
        ({
            let data = multiprotocol(p, packed_all(prefixes), withdraw);
            let kind: u8 = if withdraw {
                15
            } else {
                14
            };
            &&& data.len() <= 0xffff
            &&& multiprotocol_effect(flags, kind, data) == Ok::<bool, Fault>(!withdraw)
            &&& announced_by(kind, data) == (if withdraw {
                Seq::empty()
            } else {
                truncated(prefixes)
            })
        }),
{
    let encoded = packed_all(prefixes);
    let data = multiprotocol(p, encoded, withdraw);
    lemma_unpack_all(prefixes, true);
    lemma_be_len(p.nh6()->0.bits as nat, 16);
    lemma_be_len(p.next_hop_v6_link_local->0.bits as nat, 16);
    lemma_be_value2(data.take(2));
    if withdraw {
        assert(data.skip(3) =~= encoded);
    } else {
        assert(data.skip(5 + data[3] as int) =~= encoded);
    }
}

/// Every UPDATE that is sent is valid to a receiver that negotiated alike, and
/// fits the standard message size.
pub proof fn law_update_is_valid(
    cfg: Config,
    p: Peer,
    n: Negotiated,
    prefixes: Seq<IpNet>,
    withdraw: bool,
)
    requires
        batch_ok(prefixes),
        next_hop_known(p, prefixes[0].addr.is_ipv6(), withdraw),
        !withdraw && prefixes[0].addr.is_ipv4() ==> valid_v4(p.nh4()->0),
        n.internal == (cfg.asn == p.remote_asn),
    ensures
        update_outcome(update_body(cfg, p, n, prefixes, withdraw), n) == Ok::<UpdateAction, Fault>(
            UpdateAction::Valid,
        ),
        update_body(cfg, p, n, prefixes, withdraw).len() + 19 <= MAX_MESSAGE,
        length_fits(UPDATE, update_body(cfg, p, n, prefixes, withdraw).len() + 19),
{
    lemma_update(cfg, p, n, prefixes, withdraw);
}

/// What an announcement announces is the batch, its host bits cleared; a
/// withdrawal announces nothing.
pub proof fn law_update_is_read_back(
    cfg: Config,
    p: Peer,
    n: Negotiated,
    prefixes: Seq<IpNet>,
    withdraw: bool,
)
    requires
        batch_ok(prefixes),
        next_hop_known(p, prefixes[0].addr.is_ipv6(), withdraw),
    ensures
        announced_prefixes(update_body(cfg, p, n, prefixes, withdraw)) == (if withdraw {
            Seq::empty()
        } else {
            truncated(prefixes)
        }),
{
    let m = Negotiated { internal: cfg.asn == p.remote_asn, ..n };
    assert(update_body(cfg, p, n, prefixes, withdraw) == update_body(
        cfg,
        p,
        m,
        prefixes,
        withdraw,
    ));
    lemma_update(cfg, p, m, prefixes, withdraw);
}

/// The octets of withdrawn prefixes in an UPDATE.
pub open spec fn withdrawn_octets(prefixes: Seq<IpNet>, withdraw: bool) -> Seq<u8> {
    if withdraw && !prefixes[0].addr.is_ipv6() {
        packed_all(prefixes)
    } else {
        Seq::empty()
    }
}

/// The parts of an UPDATE body stand where the checks look for them.
pub proof fn lemma_update_layout(
    cfg: Config,
    p: Peer,
    n: Negotiated,
    prefixes: Seq<IpNet>,
    withdraw: bool,
)
    requires
        batch_ok(prefixes),
        next_hop_known(p, prefixes[0].addr.is_ipv6(), withdraw),
    ensures
        ({
            let b = update_body(cfg, p, n, prefixes, withdraw);
            let v6 = prefixes[0].addr.is_ipv6();
            let encoded = packed_all(prefixes);
            let attrs = update_attributes(cfg, p, n, encoded, v6, withdraw);
            let gone = withdrawn_octets(prefixes, withdraw);
            let w = gone.len() as int;
            &&& b.len() + 19 <= MAX_MESSAGE
            &&& length_fits(UPDATE, b.len() + 19)
            &&& withdrawn_len(b) == w
            &&& attributes_len(b) == attrs.len()
            &&& b.len() >= 4 + w + attrs.len()
            &&& b.subrange(2, 2 + w) == gone
            &&& b.subrange(4 + w, 4 + w + attrs.len()) == attrs
            &&& b.skip(4 + w + attrs.len()) == if withdraw || v6 {
                Seq::<u8>::empty()
            } else {
                encoded
            }
        }),
{
    let b = update_body(cfg, p, n, prefixes, withdraw);
    let v6 = prefixes[0].addr.is_ipv6();
    let encoded = packed_all(prefixes);
    let attrs = update_attributes(cfg, p, n, encoded, v6, withdraw);
    lemma_unpack_all(prefixes, v6);
    lemma_update_len(cfg, p, n, encoded, v6, withdraw);
    lemma_be2(encoded.len());
    lemma_be2(attrs.len());
    lemma_be_value_of_be(encoded.len(), 2);
    lemma_be_value_of_be(attrs.len(), 2);
    let gone = withdrawn_octets(prefixes, withdraw);
    let w = gone.len() as int;
    lemma_be_value2(b.take(2));
    assert(withdrawn_len(b) == w) by {
        if withdraw && !v6 {
            assert(b.take(2) =~= be(encoded.len(), 2));
        }
    }
    assert(b.subrange(2 + w, 4 + w) =~= be(attrs.len(), 2));
    assert(b.subrange(4 + w, 4 + w + attrs.len()) =~= attrs);
    assert(b.subrange(2, 2 + w) =~= gone);
    let tail = b.skip(4 + w + attrs.len());
    if withdraw || v6 {
        assert(tail =~= Seq::<u8>::empty());
    } else {
        assert(tail =~= encoded);
    }
}

/// An UPDATE body passes the checks, and announces its prefixes.
proof fn lemma_update(
    cfg: Config,
    p: Peer,
    n: Negotiated,
    prefixes: Seq<IpNet>,
    withdraw: bool,
)
    requires
        batch_ok(prefixes),
        next_hop_known(p, prefixes[0].addr.is_ipv6(), withdraw),
        n.internal == (cfg.asn == p.remote_asn),
    ensures
        update_body(cfg, p, n, prefixes, withdraw).len() + 19 <= MAX_MESSAGE,
        length_fits(UPDATE, update_body(cfg, p, n, prefixes, withdraw).len() + 19),
        (!withdraw && prefixes[0].addr.is_ipv4() ==> valid_v4(p.nh4()->0)) ==> update_outcome(
            update_body(cfg, p, n, prefixes, withdraw),
            n,
        ) == Ok::<UpdateAction, Fault>(UpdateAction::Valid),
        announced_prefixes(update_body(cfg, p, n, prefixes, withdraw)) == (if withdraw {
            Seq::empty()
        } else {
            truncated(prefixes)
        }),
{
    let b = update_body(cfg, p, n, prefixes, withdraw);
    let v6 = prefixes[0].addr.is_ipv6();
    let encoded = packed_all(prefixes);
    let attrs = update_attributes(cfg, p, n, encoded, v6, withdraw);
    lemma_unpack_all(prefixes, v6);
    lemma_update_len(cfg, p, n, encoded, v6, withdraw);
    lemma_update_layout(cfg, p, n, prefixes, withdraw);
    let nothing = Seq::<u8>::empty();
    let none = Seq::<IpNet>::empty();
    let w = withdrawn_octets(prefixes, withdraw).len() as int;
    let start = walk_start();
    let set: u8 = if multiprotocol(p, encoded, withdraw).len() > 255 {
        0x90
    } else {
        0x80
    };
    assert(attrs + nothing =~= attrs);
    assert(announced_in(nothing) =~= none);
    if v6 {
        lemma_multiprotocol(p, prefixes, withdraw, set);
        let data = multiprotocol(p, encoded, withdraw);
        if withdraw {
            lemma_attribute_first(n, 0x80, 15, data, nothing, start);
            assert(announced_prefixes(b) =~= none);
        } else {
            let rest = path_attributes(cfg, p, n);
            let met = Walk { seen: start.seen.insert(14), mp_reach: true, ..start };
            lemma_attribute_first(n, 0x80, 14, data, rest, start);
            lemma_path_attributes(cfg, p, n, nothing, met);
            assert(rest + nothing =~= rest);
            assert(announced_prefixes(b) =~= truncated(prefixes));
        }
    } else if withdraw {
        assert(attrs =~= nothing);
        assert(announced_prefixes(b) =~= none);
    } else {
        let hop = p.nh4()->0;
        lemma_be_len(hop.bits as nat, 4);
        lemma_be4(hop.bits as nat);
        lemma_be_value_of_be(hop.bits as nat, 4);
        let last = attribute(0x40, 3, hop.octets());
        lemma_path_attributes(cfg, p, n, last, start);
        let met = after_path(cfg, p, n, start);
        lemma_attribute_first(n, 0x40, 3, hop.octets(), nothing, met);
        assert(last + nothing =~= last);
        assert(announced_in(last) =~= none);
        assert(announced_prefixes(b) =~= truncated(prefixes));
    }
}

/// An end-of-RIB marker is a valid UPDATE that announces nothing.
pub proof fn law_end_of_rib_is_valid(v6: bool, n: Negotiated)
    ensures
        update_outcome(end_of_rib_body(v6), n) == Ok::<UpdateAction, Fault>(UpdateAction::Valid),
        announced_prefixes(end_of_rib_body(v6)) == Seq::<IpNet>::empty(),
{
    let b = end_of_rib_body(v6);
    let nothing = Seq::<u8>::empty();
    lemma_be_value2(b.take(2));
    lemma_be_value2(b.subrange(2, 4));
    assert(b.subrange(2, 2) =~= nothing);
    if v6 {
        let data = seq![0u8, 2, 1];
        assert(b.subrange(4, 10) =~= attribute(0x80, 15, data) + nothing);
        assert(b.skip(10) =~= nothing);
        lemma_be_value2(data.take(2));
        assert(data.skip(3) =~= nothing);
        lemma_attribute_first(n, 0x80, 15, data, nothing, walk_start());
        assert(announced_prefixes(b) =~= Seq::<IpNet>::empty());
    } else {
        assert(b.skip(4) =~= nothing);
        assert(b.subrange(4, 4) =~= nothing);
        assert(announced_prefixes(b) =~= Seq::<IpNet>::empty());
    }
}

/// A recoverable error does not hide what follows it: whatever recovery is
/// already called for, the rest of the attributes brings the same fault, and
/// the action only grows stronger.
pub proof fn law_later_fault_wins(n: Negotiated, b: Seq<u8>, w: Walk, earlier: UpdateAction)
    ensures
        match (attributes(n, b, w), attributes(n, b, raise(w, earlier))) {
            (Err(f), Err(g)) => f == g,
            (Ok(x), Ok(y)) => {
                &&& y == raise(x, earlier)
                &&& y.action == y.action.stronger(earlier)
                &&& x.action == x.action.stronger(w.action)
            },
            _ => false,
        },
    decreases b.len(),
{
    if b.len() >= 3 {
        let h = header_len(b[0]);
        let end = h + value_len(b);
        if h <= b.len() && end <= b.len() {
            let v = raise(w, earlier);
            let data = b.subrange(h, end);
            let raw = b.take(end);
            match effect(n, b[0], b[1], data, raw, w) {
                Err(f) => {
                    assert(effect(n, b[0], b[1], data, raw, v) == Err::<Walk, Fault>(f));
                },
                Ok(x) => {
                    assert(effect(n, b[0], b[1], data, raw, v) == Ok::<Walk, Fault>(
                        raise(x, earlier),
                    ));
                    law_later_fault_wins(n, b.skip(end), x, earlier);
                },
            }
        }
    }
}

/// Packed prefixes that pass the check and are not nothing are at least one.
proof fn lemma_packed_is_unpacked(b: Seq<u8>, v6: bool)
    requires
        b.len() > 0,
        packed_ok(
            b,
            if v6 {
                128
            } else {
                32
            },
        ),
    ensures
        unpacked(b, v6).len() > 0,
{
}

/// Attributes that are found to announce something give prefixes.
proof fn lemma_reach_is_announced(n: Negotiated, b: Seq<u8>, w: Walk)
    requires
        !w.mp_reach,
    ensures
        attributes(n, b, w) matches Ok(s) ==> s.mp_reach ==> announced_in(b).len() > 0,
    decreases b.len(),
{
    if b.len() >= 3 {
        let h = header_len(b[0]);
        let end = h + value_len(b);
        if h <= b.len() && end <= b.len() {
            let kind = b[1];
            let data = b.subrange(h, end);
            if let Ok(x) = effect(n, b[0], kind, data, b.take(end), w) {
                if x.mp_reach {
                    let start = 5 + data[3];
                    assert(multiprotocol_effect(b[0], kind, data) == Ok::<bool, Fault>(true));
                    lemma_packed_is_unpacked(data.skip(start), be_value(data.take(2)) == 2);
                } else {
                    lemma_reach_is_announced(n, b.skip(end), x);
                }
            }
        }
    }
}

/// An UPDATE is to be treated as a withdrawal only where it announces prefixes,
/// which can be named.
pub proof fn law_treated_as_withdrawal_names_prefixes(b: Seq<u8>, n: Negotiated)
    requires
        update_outcome(b, n) == Ok::<UpdateAction, Fault>(UpdateAction::TreatAsWithdraw),
    ensures
        announced_prefixes(b).len() > 0,
{
    let w = withdrawn_len(b);
    let a = attributes_len(b);
    let tail = b.skip(4 + w + a);
    if tail.len() > 0 {
        lemma_packed_is_unpacked(tail, false);
    }
    lemma_reach_is_announced(n, b.subrange(4 + w, 4 + w + a), walk_start());
}

} // verus!
