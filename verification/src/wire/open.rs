//! The OPEN message: what is offered, and what is negotiated.
use vstd::prelude::*;

use crate::addr::Ipv4Addr;
use crate::bytes::{append, append_be, be, be_value, u16b, u32b};
use crate::bytes::{lemma_be2, lemma_be4, lemma_be_len, lemma_be_value_of_be};
use crate::config::{valid_router_id, Config, Peer};
use crate::wire::error::{err, fault, Fault, ProtocolError};
use crate::wire::frame::{agrees, frame, message, OPEN};

verus! {

/// The number that stands for a four-octet ASN where only two octets fit.
pub const AS_TRANS: u16 = 23456;

/// What two speakers agreed on.
#[derive(Clone, Copy, Debug, PartialEq, Eq, Structural)]
pub struct Negotiated {
    pub router_id: Ipv4Addr,
    pub hold: u16,
    pub asn4: bool,
    pub internal: bool,
    pub ipv4: bool,
    pub ipv6: bool,
}

/// An ASN in two octets.
pub open spec fn spec_short_asn(asn: u32) -> u16 {
    if asn <= 0xffff {
        asn as u16
    } else {
        AS_TRANS
    }
}

/// An ASN in two octets, or AS_TRANS where it does not fit.
#[verifier::when_used_as_spec(spec_short_asn)]
pub fn short_asn(asn: u32) -> (r: u16)
    ensures
        r == short_asn(asn),
{
    if asn <= 0xffff {
        asn as u16
    } else {
        AS_TRANS
    }
}

/// The multiprotocol capabilities of the families that are enabled.
pub open spec fn family_capabilities(ipv4: bool, ipv6: bool) -> Seq<u8> {
    (if ipv4 {
        seq![1u8, 4, 0, 1, 0, 1]
    } else {
        Seq::empty()
    }) + (if ipv6 {
        seq![1u8, 4, 0, 2, 0, 1]
    } else {
        Seq::empty()
    })
}

/// Append the multiprotocol capabilities of the families that are enabled.
fn append_families(out: &mut Vec<u8>, ipv4: bool, ipv6: bool)
    ensures
        final(out)@ == old(out)@ + family_capabilities(ipv4, ipv6),
{
    if ipv4 {
        let cap: [u8; 6] = [1, 4, 0, 1, 0, 1];
        append(out, &cap);
        assert(cap@ =~= seq![1u8, 4, 0, 1, 0, 1]);
    }
    if ipv6 {
        let cap: [u8; 6] = [1, 4, 0, 2, 0, 1];
        append(out, &cap);
        assert(cap@ =~= seq![1u8, 4, 0, 2, 0, 1]);
    }
    assert(out@ =~= old(out)@ + family_capabilities(ipv4, ipv6));
}

/// The capabilities offered: four-octet ASNs, route refresh, and the families.
pub open spec fn offered(asn: u32, ipv4: bool, ipv6: bool) -> Seq<u8> {
    seq![65u8, 4] + be(asn as nat, 4) + seq![2u8, 0] + family_capabilities(ipv4, ipv6)
}

/// The body of the OPEN sent to a peer.
pub open spec fn open_body(cfg: Config, peer: Peer) -> Seq<u8> {
    let caps = offered(cfg.asn, peer.ipv4, peer.ipv6);
    seq![4u8] + be(short_asn(cfg.asn) as nat, 2) + be(peer.hold_time_secs as nat, 2)
        + cfg.router_id.octets() + seq![(caps.len() + 2) as u8, 2, caps.len() as u8] + caps
}

/// Encode an OPEN advertising four-octet ASNs, route refresh, and enabled families.
pub fn open(cfg: &Config, peer: &Peer) -> (r: Vec<u8>)
    ensures
        r@ == message(OPEN, open_body(*cfg, *peer)),
{
    let mut caps: Vec<u8> = Vec::new();
    caps.push(65);
    caps.push(4);
    append_be(&mut caps, cfg.asn as u128, 4);
    caps.push(2);
    caps.push(0);
    append_families(&mut caps, peer.ipv4, peer.ipv6);
    assert(caps@ =~= offered(cfg.asn, peer.ipv4, peer.ipv6));
    proof {
        lemma_be_len(cfg.asn as nat, 4);
        lemma_be_len(short_asn(cfg.asn) as nat, 2);
        lemma_be_len(peer.hold_time_secs as nat, 2);
        lemma_be_len(cfg.router_id.bits as nat, 4);
    }
    let mut body: Vec<u8> = Vec::new();
    body.push(4);
    append_be(&mut body, short_asn(cfg.asn) as u128, 2);
    append_be(&mut body, peer.hold_time_secs as u128, 2);
    cfg.router_id.append_octets(&mut body);
    body.push((caps.len() + 2) as u8);
    body.push(2);
    body.push(caps.len() as u8);
    append(&mut body, &caps);
    assert(body@ =~= open_body(*cfg, *peer));
    frame(OPEN, &body)
}

/// What the capabilities of a peer say.
#[derive(Clone, Copy, Debug, PartialEq, Eq, Structural)]
pub struct Capabilities {
    /// The four-octet ASN, if one was given.
    pub as4: Option<u32>,
    /// Whether any multiprotocol capability was given.
    pub mp: bool,
    pub v4: bool,
    pub v6: bool,
}

/// The effect of one capability.
pub open spec fn capability(code: u8, data: Seq<u8>, c: Capabilities) -> Result<
    Capabilities,
    Fault,
> {
    if code == 1 {
        if data.len() != 4 {
            Err(fault(2, 0, "invalid multiprotocol capability"@))
        } else {
            let afi = be_value(data.take(2));
            Ok(
                Capabilities {
                    as4: c.as4,
                    mp: true,
                    v4: c.v4 || (data[3] == 1 && afi == 1),
                    v6: c.v6 || (data[3] == 1 && afi == 2),
                },
            )
        }
    } else if code == 2 {
        if data.len() != 0 {
            Err(fault(2, 0, "invalid route refresh capability"@))
        } else {
            Ok(c)
        }
    } else if code == 65 {
        if data.len() != 4 {
            Err(fault(2, 0, "invalid four-octet ASN capability"@))
        } else if c.as4 is Some && c.as4->0 != be_value(data) {
            Err(fault(2, 2, "conflicting ASN capabilities"@))
        } else {
            Ok(Capabilities { as4: Some(be_value(data) as u32), ..c })
        }
    } else {
        Ok(c)
    }
}

/// The effect of a list of capabilities; the first fault ends it.
pub open spec fn capabilities(b: Seq<u8>, c: Capabilities) -> Result<Capabilities, Fault>
    decreases b.len(),
{
    if b.len() == 0 {
        Ok(c)
    } else if b.len() < 2 || b[1] + 2 > b.len() {
        Err(fault(2, 0, "invalid capability length"@))
    } else {
        match capability(b[0], b.subrange(2, 2 + b[1] as int), c) {
            Err(e) => Err(e),
            Ok(d) => capabilities(b.skip(2 + b[1] as int), d),
        }
    }
}

/// The effect of a list of optional parameters; the first fault ends it.
/// Extended parameters have a two-octet length.
pub open spec fn parameters(b: Seq<u8>, extended: bool, c: Capabilities) -> Result<
    Capabilities,
    Fault,
>
    decreases b.len(),
{
    let header: int = if extended {
        3
    } else {
        2
    };
    if b.len() == 0 {
        Ok(c)
    } else if b.len() < header {
        Err(fault(2, 0, "short optional parameter header"@))
    } else {
        let length: int = if extended {
            be_value(b.subrange(1, 3)) as int
        } else {
            b[1] as int
        };
        let end = header + length;
        if end > b.len() {
            Err(fault(2, 0, "invalid optional parameter"@))
        } else if b[0] != 2 {
            Err(
                Fault {
                    code: 2,
                    subcode: 4,
                    data: b.take(end),
                    reason: "unsupported optional parameter"@,
                },
            )
        } else {
            match capabilities(b.subrange(header, end), c) {
                Err(e) => Err(e),
                Ok(d) => parameters(b.skip(end), extended, d),
            }
        }
    }
}

/// Nothing known yet.
pub open spec fn no_capabilities() -> Capabilities {
    Capabilities { as4: None, mp: false, v4: false, v6: false }
}

/// What the optional parameters of an OPEN body say. RFC 9072: a first parameter
/// of type 255 selects the extended lengths, and the old length byte is ignored.
pub open spec fn announced(b: Seq<u8>) -> Result<Capabilities, Fault> {
    if b[9] != 0 && b.len() > 10 && b[10] == 255 {
        if b.len() < 13 {
            Err(fault(2, 0, "short extended OPEN length"@))
        } else if be_value(b.subrange(11, 13)) + 13 != b.len() {
            Err(fault(2, 0, "invalid extended OPEN parameter length"@))
        } else {
            parameters(b.skip(13), true, no_capabilities())
        }
    } else if b[9] + 10 != b.len() {
        Err(fault(2, 0, "invalid OPEN parameter length"@))
    } else {
        parameters(b.skip(10), false, no_capabilities())
    }
}

/// What an OPEN body leads to with a peer: the first check that fails, or the
/// agreement.
pub open spec fn negotiation(b: Seq<u8>, cfg: Config, p: Peer) -> Result<Negotiated, Fault> {
    let old_asn = be_value(b.subrange(1, 3));
    let hold = be_value(b.subrange(3, 5)) as u16;
    let router_id = Ipv4Addr { bits: be_value(b.subrange(5, 9)) as u32 };
    if b.len() < 10 {
        Err(fault(2, 0, "short OPEN"@))
    } else if b[0] != 4 {
        Err(Fault { code: 2, subcode: 1, data: seq![0, 4], reason: "unsupported version"@ })
    } else if hold == 1 || hold == 2 {
        Err(fault(2, 6, "unacceptable hold time"@))
    } else if !valid_router_id(router_id) || (cfg.asn == p.remote_asn && router_id
        == cfg.router_id) {
        Err(fault(2, 3, "invalid or duplicate router ID"@))
    } else {
        match announced(b) {
            Err(e) => Err(e),
            Ok(c) => {
                let asn = match c.as4 {
                    Some(a) => a as nat,
                    None => old_asn,
                };
                let n = Negotiated {
                    router_id,
                    hold: if hold <= p.hold_time_secs {
                        hold
                    } else {
                        p.hold_time_secs
                    },
                    asn4: c.as4 is Some,
                    internal: cfg.asn == p.remote_asn,
                    ipv4: p.ipv4 && (c.v4 || !c.mp),
                    ipv6: p.ipv6 && c.v6,
                };
                if asn != p.remote_asn {
                    Err(fault(2, 2, "unexpected peer ASN"@))
                } else if old_asn != short_asn(p.remote_asn) {
                    Err(fault(2, 2, "inconsistent two-octet peer ASN"@))
                } else if !n.ipv4 && !n.ipv6 {
                    Err(
                        Fault {
                            code: 2,
                            subcode: 7,
                            data: family_capabilities(p.ipv4, p.ipv6),
                            reason: "no common address family"@,
                        },
                    )
                } else {
                    Ok(n)
                }
            },
        }
    }
}

/// Take in one capability.
fn parse_capability(code: u8, data: &[u8], c: Capabilities) -> (r: Result<
    Capabilities,
    ProtocolError,
>)
    ensures
        agrees(r, capability(code, data@, c)),
{
    if code == 1 {
        if data.len() != 4 {
            return Err(err(2, 0, "invalid multiprotocol capability"));
        }
        let afi: u16 = u16b(data);
        assert(data@.take(2) =~= data@.subrange(0, 2));
        Ok(
            Capabilities {
                as4: c.as4,
                mp: true,
                v4: c.v4 || (data[3] == 1 && afi == 1),
                v6: c.v6 || (data[3] == 1 && afi == 2),
            },
        )
    } else if code == 2 {
        if data.len() != 0 {
            return Err(err(2, 0, "invalid route refresh capability"));
        }
        Ok(c)
    } else if code == 65 {
        if data.len() != 4 {
            return Err(err(2, 0, "invalid four-octet ASN capability"));
        }
        let value: u32 = u32b(data);
        assert(data@.subrange(0, 4) =~= data@);
        if let Some(a) = c.as4 {
            if a != value {
                return Err(err(2, 2, "conflicting ASN capabilities"));
            }
        }
        Ok(Capabilities { as4: Some(value), mp: c.mp, v4: c.v4, v6: c.v6 })
    } else {
        Ok(c)
    }
}

/// Take in a list of capabilities.
fn parse_capabilities(b: &[u8], c: Capabilities) -> (r: Result<Capabilities, ProtocolError>)
    ensures
        agrees(r, capabilities(b@, c)),
{
    let mut rest = b;
    let mut known = c;
    while rest.len() > 0
        invariant
            capabilities(b@, c) == capabilities(rest@, known),
        decreases rest@.len(),
    {
        if rest.len() < 2 {
            return Err(err(2, 0, "invalid capability length"));
        }
        let end: usize = rest[1] as usize + 2;
        if end > rest.len() {
            return Err(err(2, 0, "invalid capability length"));
        }
        match parse_capability(rest[0], &rest[2..end], known) {
            Ok(next) => {
                known = next;
            },
            Err(e) => {
                return Err(e);
            },
        }
        assert(rest@.skip(end as int) =~= rest@.subrange(end as int, rest@.len() as int));
        rest = &rest[end..rest.len()];
    }
    Ok(known)
}

/// Take in a list of optional parameters.
fn parse_parameters(b: &[u8], extended: bool) -> (r: Result<Capabilities, ProtocolError>)
    ensures
        agrees(r, parameters(b@, extended, no_capabilities())),
{
    let header: usize = if extended {
        3
    } else {
        2
    };
    let mut rest = b;
    let mut known = Capabilities { as4: None, mp: false, v4: false, v6: false };
    while rest.len() > 0
        invariant
            header == (if extended {
                3int
            } else {
                2int
            }),
            parameters(b@, extended, no_capabilities()) == parameters(rest@, extended, known),
        decreases rest@.len(),
    {
        if rest.len() < header {
            return Err(err(2, 0, "short optional parameter header"));
        }
        let length: usize = if extended {
            assert(rest@.subrange(1, 3).subrange(0, 2) =~= rest@.subrange(1, 3));
            u16b(&rest[1..3]) as usize
        } else {
            rest[1] as usize
        };
        let end: usize = header + length;
        if end > rest.len() {
            return Err(err(2, 0, "invalid optional parameter"));
        }
        if rest[0] != 2 {
            let mut data: Vec<u8> = Vec::new();
            append(&mut data, &rest[0..end]);
            assert(data@ =~= rest@.take(end as int));
            return Err(
                ProtocolError {
                    code: 2,
                    subcode: 4,
                    data,
                    reason: "unsupported optional parameter",
                },
            );
        }
        match parse_capabilities(&rest[header..end], known) {
            Ok(next) => {
                known = next;
            },
            Err(e) => {
                return Err(e);
            },
        }
        assert(rest@.skip(end as int) =~= rest@.subrange(end as int, rest@.len() as int));
        rest = &rest[end..rest.len()];
    }
    Ok(known)
}

/// Take in the optional parameters of an OPEN body.
fn parse_announced(b: &[u8]) -> (r: Result<Capabilities, ProtocolError>)
    requires
        b@.len() >= 10,
    ensures
        agrees(r, announced(b@)),
{
    if b[9] != 0 && b.len() > 10 && b[10] == 255 {
        if b.len() < 13 {
            return Err(err(2, 0, "short extended OPEN length"));
        }
        assert(b@.subrange(11, 13).subrange(0, 2) =~= b@.subrange(11, 13));
        if u16b(&b[11..13]) as usize + 13 != b.len() {
            return Err(err(2, 0, "invalid extended OPEN parameter length"));
        }
        assert(b@.skip(13) =~= b@.subrange(13, b@.len() as int));
        parse_parameters(&b[13..b.len()], true)
    } else {
        if b[9] as usize + 10 != b.len() {
            return Err(err(2, 0, "invalid OPEN parameter length"));
        }
        assert(b@.skip(10) =~= b@.subrange(10, b@.len() as int));
        parse_parameters(&b[10..b.len()], false)
    }
}

/// Validate an OPEN body against the expected peer and negotiate hold time and families.
/// Peers without multiprotocol capabilities may use legacy IPv4 unicast.
pub fn parse_open(b: &[u8], cfg: &Config, p: &Peer) -> (r: Result<Negotiated, ProtocolError>)
    ensures
        agrees(r, negotiation(b@, *cfg, *p)),
{
    if b.len() < 10 {
        return Err(err(2, 0, "short OPEN"));
    }
    if b[0] != 4 {
        let mut data: Vec<u8> = Vec::new();
        data.push(0);
        data.push(4);
        assert(data@ =~= seq![0u8, 4]);
        return Err(ProtocolError { code: 2, subcode: 1, data, reason: "unsupported version" });
    }
    assert(b@.subrange(1, 3).subrange(0, 2) =~= b@.subrange(1, 3));
    assert(b@.subrange(3, 5).subrange(0, 2) =~= b@.subrange(3, 5));
    assert(b@.subrange(5, 9).subrange(0, 4) =~= b@.subrange(5, 9));
    let old_asn: u32 = u16b(&b[1..3]) as u32;
    let hold: u16 = u16b(&b[3..5]);
    if hold == 1 || hold == 2 {
        return Err(err(2, 6, "unacceptable hold time"));
    }
    let router_id = Ipv4Addr { bits: u32b(&b[5..9]) };
    if !valid_router_id(router_id) || (cfg.asn == p.remote_asn && router_id == cfg.router_id) {
        return Err(err(2, 3, "invalid or duplicate router ID"));
    }
    let c = match parse_announced(b) {
        Ok(c) => c,
        Err(e) => {
            return Err(e);
        },
    };
    let asn: u32 = match c.as4 {
        Some(a) => a,
        None => old_asn,
    };
    if asn != p.remote_asn {
        return Err(err(2, 2, "unexpected peer ASN"));
    }
    if old_asn != short_asn(p.remote_asn) as u32 {
        return Err(err(2, 2, "inconsistent two-octet peer ASN"));
    }
    let n = Negotiated {
        router_id,
        hold: if hold <= p.hold_time_secs {
            hold
        } else {
            p.hold_time_secs
        },
        asn4: c.as4.is_some(),
        internal: cfg.asn == p.remote_asn,
        ipv4: p.ipv4 && (c.v4 || !c.mp),
        ipv6: p.ipv6 && c.v6,
    };
    if !n.ipv4 && !n.ipv6 {
        let mut data: Vec<u8> = Vec::new();
        append_families(&mut data, p.ipv4, p.ipv6);
        assert(data@ =~= family_capabilities(p.ipv4, p.ipv6));
        return Err(
            ProtocolError { code: 2, subcode: 7, data, reason: "no common address family" },
        );
    }
    Ok(n)
}

/// A list that starts with one whole capability has its effect first.
proof fn lemma_capability_first(code: u8, data: Seq<u8>, rest: Seq<u8>, c: Capabilities)
    requires
        data.len() <= 255,
    ensures
        capabilities(seq![code, data.len() as u8] + data + rest, c) == match capability(
            code,
            data,
            c,
        ) {
            Err(e) => Err(e),
            Ok(d) => capabilities(rest, d),
        },
{
    let b = seq![code, data.len() as u8] + data + rest;
    assert(b.subrange(2, 2 + b[1] as int) =~= data);
    assert(b.skip(2 + b[1] as int) =~= rest);
}

/// What a peer learns from the capabilities that are offered.
proof fn lemma_offered(asn: u32, ipv4: bool, ipv6: bool)
    ensures
        capabilities(offered(asn, ipv4, ipv6), no_capabilities()) == Ok::<Capabilities, Fault>(
            Capabilities { as4: Some(asn), mp: ipv4 || ipv6, v4: ipv4, v6: ipv6 },
        ),
{
    let nothing = Seq::<u8>::empty();
    let none = no_capabilities();
    let families = family_capabilities(ipv4, ipv6);
    let data = be(asn as nat, 4);
    lemma_be_len(asn as nat, 4);
    lemma_be4(asn as nat);
    lemma_be_value_of_be(asn as nat, 4);
    let with_asn = Capabilities { as4: Some(asn), ..none };
    lemma_capability_first(65, data, seq![2u8, 0] + families, none);
    assert(offered(asn, ipv4, ipv6) =~= seq![65u8, 4] + data + (seq![2u8, 0] + families));
    lemma_capability_first(2, nothing, families, with_asn);
    assert(seq![2u8, 0] + nothing + families =~= seq![2u8, 0] + families);
    let d4 = seq![0u8, 1, 0, 1];
    let d6 = seq![0u8, 2, 0, 1];
    crate::bytes::lemma_be_value2(d4.take(2));
    crate::bytes::lemma_be_value2(d6.take(2));
    let with_v4 = Capabilities { mp: true, v4: true, ..with_asn };
    if ipv4 {
        let rest = family_capabilities(false, ipv6);
        lemma_capability_first(1, d4, rest, with_asn);
        assert(families =~= seq![1u8, 4] + d4 + rest);
    }
    if ipv6 {
        let so_far = if ipv4 {
            with_v4
        } else {
            with_asn
        };
        lemma_capability_first(1, d6, nothing, so_far);
        assert(family_capabilities(false, true) =~= seq![1u8, 4] + d6 + nothing);
    }
    assert(family_capabilities(false, false) =~= nothing);
}

/// The parts of an OPEN body stand where the negotiation looks for them.
proof fn lemma_open_body(cfg: Config, peer: Peer)
    ensures
        ({
            let b = open_body(cfg, peer);
            &&& 29 - 19 <= b.len() <= 40
            &&& b[0] == 4
            &&& be_value(b.subrange(1, 3)) == short_asn(cfg.asn)
            &&& be_value(b.subrange(3, 5)) == peer.hold_time_secs
            &&& be_value(b.subrange(5, 9)) == cfg.router_id.bits
            &&& announced(b) == Ok::<Capabilities, Fault>(
                Capabilities {
                    as4: Some(cfg.asn),
                    mp: peer.ipv4 || peer.ipv6,
                    v4: peer.ipv4,
                    v6: peer.ipv6,
                },
            )
        }),
{
    let b = open_body(cfg, peer);
    let caps = offered(cfg.asn, peer.ipv4, peer.ipv6);
    lemma_be_len(cfg.asn as nat, 4);
    lemma_be2(short_asn(cfg.asn) as nat);
    lemma_be2(peer.hold_time_secs as nat);
    lemma_be4(cfg.router_id.bits as nat);
    lemma_be_value_of_be(short_asn(cfg.asn) as nat, 2);
    lemma_be_value_of_be(peer.hold_time_secs as nat, 2);
    lemma_be_value_of_be(cfg.router_id.bits as nat, 4);
    assert(b.subrange(1, 3) =~= be(short_asn(cfg.asn) as nat, 2));
    assert(b.subrange(3, 5) =~= be(peer.hold_time_secs as nat, 2));
    assert(b.subrange(5, 9) =~= be(cfg.router_id.bits as nat, 4));
    let params = b.skip(10);
    assert(params =~= seq![2u8, caps.len() as u8] + caps);
    assert(params.subrange(2, 2 + caps.len() as int) =~= caps);
    assert(params.skip(2 + caps.len() as int) =~= Seq::<u8>::empty());
    lemma_offered(cfg.asn, peer.ipv4, peer.ipv6);
    reveal_with_fuel(parameters, 2);
}

/// The OPEN that a configured speaker sends is understood by the speaker that
/// expects it: the shorter hold time, four-octet ASNs and the common families
/// are agreed on. A speaker that offers no family is taken to offer IPv4.
pub proof fn law_open_is_understood(sender: Config, to: Peer, receiver: Config, from: Peer)
    requires
        sender.asn == from.remote_asn,
        valid_router_id(sender.router_id),
        to.hold_time_secs == 0 || to.hold_time_secs >= 3,
        receiver.asn == from.remote_asn ==> sender.router_id != receiver.router_id,
        (from.ipv4 && (to.ipv4 || !to.ipv6)) || (from.ipv6 && to.ipv6),
    ensures
        negotiation(open_body(sender, to), receiver, from) == Ok::<Negotiated, Fault>(
            Negotiated {
                router_id: sender.router_id,
                hold: if to.hold_time_secs <= from.hold_time_secs {
                    to.hold_time_secs
                } else {
                    from.hold_time_secs
                },
                asn4: true,
                internal: receiver.asn == from.remote_asn,
                ipv4: from.ipv4 && (to.ipv4 || !to.ipv6),
                ipv6: from.ipv6 && to.ipv6,
            },
        ),
{
    lemma_open_body(sender, to);
}

/// Two speakers that are configured for each other, each with at least one
/// family and one in common, agree on the same hold time, families and kind
/// of session.
pub proof fn law_both_ends_agree(a: Config, peer_of_a: Peer, b: Config, peer_of_b: Peer)
    requires
        a.asn == peer_of_b.remote_asn,
        b.asn == peer_of_a.remote_asn,
        valid_router_id(a.router_id),
        valid_router_id(b.router_id),
        a.asn == b.asn ==> a.router_id != b.router_id,
        peer_of_a.hold_time_secs == 0 || peer_of_a.hold_time_secs >= 3,
        peer_of_b.hold_time_secs == 0 || peer_of_b.hold_time_secs >= 3,
        (peer_of_a.ipv4 && peer_of_b.ipv4) || (peer_of_a.ipv6 && peer_of_b.ipv6),
    ensures
        negotiation(open_body(b, peer_of_b), a, peer_of_a) is Ok,
        negotiation(open_body(a, peer_of_a), b, peer_of_b) is Ok,
        ({
            let at_a = negotiation(open_body(b, peer_of_b), a, peer_of_a)->Ok_0;
            let at_b = negotiation(open_body(a, peer_of_a), b, peer_of_b)->Ok_0;
            &&& at_a.hold == at_b.hold
            &&& at_a.asn4 && at_b.asn4
            &&& at_a.internal == at_b.internal
            &&& at_a.ipv4 == at_b.ipv4
            &&& at_a.ipv6 == at_b.ipv6
            &&& at_a.router_id == b.router_id
            &&& at_b.router_id == a.router_id
        }),
{
    law_open_is_understood(a, peer_of_a, b, peer_of_b);
    law_open_is_understood(b, peer_of_b, a, peer_of_a);
}

/// No proper beginning of an acceptable OPEN body is acceptable.
pub proof fn law_truncated_open_is_rejected(b: Seq<u8>, length: int, cfg: Config, p: Peer)
    requires
        negotiation(b, cfg, p) is Ok,
        0 <= length < b.len(),
    ensures
        negotiation(b.take(length), cfg, p) is Err,
{
    let t = b.take(length);
    if length >= 13 {
        assert(t.subrange(11, 13) =~= b.subrange(11, 13));
    }
}

} // verus!
