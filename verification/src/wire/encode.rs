//! Encoding of announcements and withdrawals.
use vstd::prelude::*;

use crate::addr::IpAddr;
use crate::bytes::{append, append_be, be, lemma_be_len};
use crate::config::{Config, Peer};
use crate::net::lemma_first_bounds;
use crate::net::IpNet;
use crate::wire::frame::{frame, message, MAX_MESSAGE, MAX_UPDATE_PREFIXES, UPDATE};
use crate::wire::open::{short_asn, Negotiated};

verus! {

/// How many octets hold this many bits.
pub open spec fn spec_octets_for(bits: u8) -> usize {
    ((bits + 7) / 8) as usize
}

/// How many octets hold this many bits.
#[verifier::when_used_as_spec(spec_octets_for)]
pub fn octets_for(bits: u8) -> (r: usize)
    ensures
        r == octets_for(bits),
{
    (bits as usize + 7) / 8
}

/// A path attribute. Long data takes the extended length field, which a flag tells.
pub open spec fn attribute(flags: u8, kind: u8, data: Seq<u8>) -> Seq<u8> {
    if data.len() > 255 {
        seq![flags | 0x10, kind] + be(data.len(), 2) + data
    } else {
        seq![flags, kind, data.len() as u8] + data
    }
}

/// Append a path attribute, selecting the extended length field when needed.
fn attr(out: &mut Vec<u8>, flags: u8, kind: u8, data: &[u8])
    requires
        data@.len() <= 0xffff,
    ensures
        final(out)@ == old(out)@ + attribute(flags, kind, data@),
{
    if data.len() > 255 {
        out.push(flags | 0x10);
        out.push(kind);
        append_be(out, data.len() as u128, 2);
    } else {
        out.push(flags);
        out.push(kind);
        out.push(data.len() as u8);
    }
    append(out, data);
    assert(out@ =~= old(out)@ + attribute(flags, kind, data@));
}

/// The octets of the lowest address of a prefix.
pub open spec fn network_octets(p: IpNet) -> Seq<u8> {
    be(p.first() as nat, (p.addr.width() / 8) as nat)
}

/// A prefix on the wire: its length, and the octets that hold that many bits.
pub open spec fn packed(p: IpNet) -> Seq<u8> {
    seq![p.prefix_len] + network_octets(p).take(octets_for(p.prefix_len) as int)
}

/// Prefixes on the wire, one after the other.
pub open spec fn packed_all(s: Seq<IpNet>) -> Seq<u8>
    decreases s.len(),
{
    if s.len() == 0 {
        Seq::empty()
    } else {
        packed_all(s.drop_last()) + packed(s.last())
    }
}

/// Append a prefix length and the minimum network-address bytes required for NLRI.
fn nlri(out: &mut Vec<u8>, p: &IpNet)
    requires
        p.wf(),
    ensures
        final(out)@ == old(out)@ + packed(*p),
        packed(*p).len() == 1 + octets_for(p.prefix_len),
{
    proof {
        lemma_first_bounds(*p);
        lemma_be_len(p.first() as nat, (p.addr.width() / 8) as nat);
    }
    out.push(p.prefix_len);
    let n: usize = octets_for(p.prefix_len);
    let mut octets: Vec<u8> = Vec::new();
    match p.trunc().addr {
        IpAddr::V4(a) => {
            a.append_octets(&mut octets);
        },
        IpAddr::V6(a) => {
            a.append_octets(&mut octets);
        },
    }
    assert(octets@ =~= network_octets(*p));
    append(out, &octets[0..n]);
    assert(octets@.subrange(0, n as int) =~= network_octets(*p).take(n as int));
    assert(out@ =~= old(out)@ + packed(*p));
}

/// The value of the attribute that announces or withdraws IPv6 prefixes.
pub open spec fn multiprotocol(p: Peer, encoded: Seq<u8>, withdraw: bool) -> Seq<u8> {
    if withdraw {
        seq![0u8, 2, 1] + encoded
    } else {
        let global = p.nh6()->0.octets();
        match p.next_hop_v6_link_local {
            Some(a) => seq![0u8, 2, 1, 32] + global + a.octets() + seq![0u8] + encoded,
            None => seq![0u8, 2, 1, 16] + global + seq![0u8] + encoded,
        }
    }
}

/// The AS path: empty inside the AS, the local ASN towards another.
pub open spec fn as_path(cfg: Config, p: Peer, n: Negotiated) -> Seq<u8> {
    if cfg.asn == p.remote_asn {
        Seq::empty()
    } else if n.asn4 {
        seq![2u8, 1] + be(cfg.asn as nat, 4)
    } else {
        seq![2u8, 1] + be(short_asn(cfg.asn) as nat, 2)
    }
}

/// The attributes that accompany an announcement of either family: ORIGIN
/// INCOMPLETE, the AS path, AS4_PATH where the path cannot hold the local ASN,
/// and LOCAL_PREF 100 inside the AS.
pub open spec fn path_attributes(cfg: Config, p: Peer, n: Negotiated) -> Seq<u8> {
    attribute(0x40, 1, seq![2u8]) + attribute(0x40, 2, as_path(cfg, p, n)) + (if !n.asn4
        && cfg.asn > 0xffff && cfg.asn != p.remote_asn {
        attribute(0xc0, 17, seq![2u8, 1] + be(cfg.asn as nat, 4))
    } else {
        Seq::empty()
    }) + (if cfg.asn == p.remote_asn {
        attribute(0x40, 5, be(100, 4))
    } else {
        Seq::empty()
    })
}

/// The attributes of an UPDATE. Multiprotocol prefixes come first (RFC 7606).
pub open spec fn update_attributes(
    cfg: Config,
    p: Peer,
    n: Negotiated,
    encoded: Seq<u8>,
    v6: bool,
    withdraw: bool,
) -> Seq<u8> {
    if v6 && withdraw {
        attribute(0x80, 15, multiprotocol(p, encoded, true))
    } else if v6 {
        attribute(0x80, 14, multiprotocol(p, encoded, false)) + path_attributes(cfg, p, n)
    } else if withdraw {
        Seq::empty()
    } else {
        path_attributes(cfg, p, n) + attribute(0x40, 3, p.nh4()->0.octets())
    }
}

/// The body of an UPDATE for one batch of one family.
pub open spec fn update_body(
    cfg: Config,
    p: Peer,
    n: Negotiated,
    prefixes: Seq<IpNet>,
    withdraw: bool,
) -> Seq<u8> {
    let v6 = prefixes[0].addr.is_ipv6();
    let encoded = packed_all(prefixes);
    let attrs = update_attributes(cfg, p, n, encoded, v6, withdraw);
    (if withdraw && !v6 {
        be(encoded.len(), 2) + encoded
    } else {
        seq![0u8, 0]
    }) + be(attrs.len(), 2) + attrs + (if !withdraw && !v6 {
        encoded
    } else {
        Seq::empty()
    })
}

/// What a batch must be to go into one UPDATE: prefixes of one family, at least
/// one and at most [`MAX_UPDATE_PREFIXES`].
pub open spec fn batch_ok(prefixes: Seq<IpNet>) -> bool {
    &&& 1 <= prefixes.len() <= MAX_UPDATE_PREFIXES
    &&& forall|i: int|
        0 <= i < prefixes.len() ==> (#[trigger] prefixes[i]).wf() && prefixes[i].addr.is_ipv6()
            == prefixes[0].addr.is_ipv6()
}

/// A next hop of the batch's family is known, or none is needed.
pub open spec fn next_hop_known(p: Peer, v6: bool, withdraw: bool) -> bool {
    withdraw || (if v6 {
        p.nh6() is Some
    } else {
        p.nh4() is Some
    })
}

/// Bounds on the parts of an UPDATE.
pub proof fn lemma_update_len(
    cfg: Config,
    p: Peer,
    n: Negotiated,
    encoded: Seq<u8>,
    v6: bool,
    withdraw: bool,
)
    requires
        encoded.len() <= 17 * MAX_UPDATE_PREFIXES,
    ensures
        multiprotocol(p, encoded, withdraw).len() <= encoded.len() + 37,
        as_path(cfg, p, n).len() <= 6,
        path_attributes(cfg, p, n).len() <= 29,
        update_attributes(cfg, p, n, encoded, v6, withdraw).len() <= 70 + (if v6 {
            encoded.len() as int
        } else {
            0
        }),
{
    lemma_be_len(cfg.asn as nat, 4);
    lemma_be_len(short_asn(cfg.asn) as nat, 2);
    lemma_be_len(100, 4);
    lemma_be_len(p.nh6()->0.bits as nat, 16);
    lemma_be_len(p.nh4()->0.bits as nat, 4);
    lemma_be_len(p.next_hop_v6_link_local->0.bits as nat, 16);
    lemma_be_len(multiprotocol(p, encoded, withdraw).len(), 2);
}

/// The attributes after the multiprotocol one, in order.
fn append_path_attributes(out: &mut Vec<u8>, cfg: &Config, p: &Peer, n: &Negotiated)
    ensures
        final(out)@ == old(out)@ + path_attributes(*cfg, *p, *n),
{
    let ghost start = out@;
    let origin: [u8; 1] = [2];
    attr(out, 0x40, 1, &origin);
    assert(origin@ =~= seq![2u8]);
    let mut path: Vec<u8> = Vec::new();
    if cfg.asn != p.remote_asn {
        path.push(2);
        path.push(1);
        if n.asn4 {
            append_be(&mut path, cfg.asn as u128, 4);
        } else {
            append_be(&mut path, short_asn(cfg.asn) as u128, 2);
        }
    }
    assert(path@ =~= as_path(*cfg, *p, *n));
    proof {
        lemma_be_len(cfg.asn as nat, 4);
        lemma_be_len(short_asn(cfg.asn) as nat, 2);
        lemma_be_len(100, 4);
    }
    attr(out, 0x40, 2, &path);
    if !n.asn4 && cfg.asn > 0xffff && cfg.asn != p.remote_asn {
        let mut as4: Vec<u8> = Vec::new();
        as4.push(2);
        as4.push(1);
        append_be(&mut as4, cfg.asn as u128, 4);
        assert(as4@ =~= seq![2u8, 1] + be(cfg.asn as nat, 4));
        attr(out, 0xc0, 17, &as4);
    }
    if cfg.asn == p.remote_asn {
        let mut preference: Vec<u8> = Vec::new();
        append_be(&mut preference, 100, 4);
        assert(preference@ =~= be(100, 4));
        attr(out, 0x40, 5, &preference);
    }
    assert(out@ =~= start + path_attributes(*cfg, *p, *n));
}

/// Encode the prefixes of a batch.
fn pack(prefixes: &[IpNet]) -> (r: Vec<u8>)
    requires
        batch_ok(prefixes@),
    ensures
        r@ == packed_all(prefixes@),
        r@.len() <= 17 * prefixes@.len(),
{
    let mut encoded: Vec<u8> = Vec::new();
    let mut i: usize = 0;
    while i < prefixes.len()
        invariant
            i <= prefixes@.len(),
            batch_ok(prefixes@),
            encoded@ == packed_all(prefixes@.take(i as int)),
            encoded@.len() <= 17 * i,
        decreases prefixes@.len() - i,
    {
        nlri(&mut encoded, &prefixes[i]);
        i += 1;
        assert(prefixes@.take(i as int).drop_last() =~= prefixes@.take(i - 1));
        assert(prefixes@.take(i as int).last() == prefixes@[i - 1]);
    }
    assert(prefixes@.take(i as int) =~= prefixes@);
    encoded
}

/// Encode one announcement or withdrawal batch using the peer's next hops and ASN width.
pub fn update(
    cfg: &Config,
    p: &Peer,
    n: &Negotiated,
    prefixes: &[IpNet],
    withdraw: bool,
) -> (r: Vec<u8>)
    requires
        batch_ok(prefixes@),
        next_hop_known(*p, prefixes@[0].addr.is_ipv6(), withdraw),
    ensures
        r@ == message(UPDATE, update_body(*cfg, *p, *n, prefixes@, withdraw)),
        r@.len() <= MAX_MESSAGE,
{
    let v6 = prefixes[0].addr.is_ipv6();
    let encoded = pack(prefixes);
    let mut attrs: Vec<u8> = Vec::new();
    proof {
        lemma_update_len(*cfg, *p, *n, encoded@, v6, withdraw);
    }
    if v6 {
        let mut mp: Vec<u8> = Vec::new();
        mp.push(0);
        mp.push(2);
        mp.push(1);
        if !withdraw {
            mp.push(
                if p.next_hop_v6_link_local.is_some() {
                    32
                } else {
                    16
                },
            );
            p.nh6().unwrap().append_octets(&mut mp);
            if let Some(link_local) = p.next_hop_v6_link_local {
                link_local.append_octets(&mut mp);
            }
            mp.push(0);
        }
        append(&mut mp, &encoded);
        assert(mp@ =~= multiprotocol(*p, encoded@, withdraw));
        attr(
            &mut attrs,
            0x80,
            if withdraw {
                15
            } else {
                14
            },
            &mp,
        );
    }
    if !withdraw {
        append_path_attributes(&mut attrs, cfg, p, n);
        if !v6 {
            let mut hop: Vec<u8> = Vec::new();
            let a = p.nh4().unwrap();
            a.append_octets(&mut hop);
            proof {
                lemma_be_len(a.bits as nat, 4);
            }
            assert(hop@ =~= a.octets());
            attr(&mut attrs, 0x40, 3, &hop);
        }
    }
    assert(attrs@ =~= update_attributes(*cfg, *p, *n, encoded@, v6, withdraw));
    let mut body: Vec<u8> = Vec::new();
    proof {
        lemma_be_len(encoded@.len(), 2);
        lemma_be_len(attrs@.len(), 2);
    }
    if withdraw && !v6 {
        append_be(&mut body, encoded.len() as u128, 2);
        append(&mut body, &encoded);
    } else {
        body.push(0);
        body.push(0);
    }
    append_be(&mut body, attrs.len() as u128, 2);
    append(&mut body, &attrs);
    if !withdraw && !v6 {
        append(&mut body, &encoded);
    }
    assert(body@ =~= update_body(*cfg, *p, *n, prefixes@, withdraw));
    proof {
        crate::wire::frame::lemma_message_len(UPDATE, body@);
    }
    frame(UPDATE, &body)
}

} // verus!
