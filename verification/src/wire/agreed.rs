//! What an OPEN leads to, by the list of its capabilities.
use vstd::prelude::*;

use crate::bytes::{
    be, be_value, lemma_be2, lemma_be_len, lemma_be_of_be_value, lemma_be_value2,
    lemma_be_value_of_be, lemma_pow256_small,
};
use crate::config::{Config, Peer};
use crate::wire::error::{Fault, ProtocolError};
use crate::wire::open::{
    announced, capabilities, capability, negotiation, no_capabilities, open, open_body, parameters,
    parse_open, Capabilities, Negotiated,
};
use crate::wire::sent::law_message_is_framed;

verus! {

/// One capability: its code and its value.
pub struct Capability {
    pub code: u8,
    pub data: Seq<u8>,
}

/// Capabilities, one after the other.
pub open spec fn capability_octets(s: Seq<Capability>) -> Seq<u8>
    decreases s.len(),
{
    if s.len() == 0 {
        Seq::empty()
    } else {
        seq![s[0].code, s[0].data.len() as u8] + s[0].data + capability_octets(s.skip(1))
    }
}

/// Every length can be written.
pub open spec fn capabilities_fit(s: Seq<Capability>) -> bool {
    forall|i: int| 0 <= i < s.len() ==> (#[trigger] s[i]).data.len() <= 255
}

/// The values have the sizes that the known codes ask for, and no two ASNs differ.
pub open spec fn capabilities_sound(s: Seq<Capability>) -> bool {
    &&& forall|i: int|
        0 <= i < s.len() ==> {
            &&& (#[trigger] s[i]).code == 1 ==> s[i].data.len() == 4
            &&& s[i].code == 2 ==> s[i].data.len() == 0
            &&& s[i].code == 65 ==> s[i].data.len() == 4
        }
    &&& forall|i: int, j: int|
        0 <= i < j < s.len() && (#[trigger] s[i]).code == 65 && (#[trigger] s[j]).code == 65
            ==> s[i].data == s[j].data
}

/// Whether some capability has this code.
pub open spec fn offers_code(s: Seq<Capability>, code: u8) -> bool {
    exists|i: int| 0 <= i < s.len() && (#[trigger] s[i]).code == code
}

/// Whether some capability, anywhere in the list, offers unicast of this family.
pub open spec fn offers_family(s: Seq<Capability>, afi: u8) -> bool {
    exists|i: int|
        0 <= i < s.len() && (#[trigger] s[i]).code == 1 && s[i].data[0] == 0 && s[i].data[1] == afi
            && s[i].data[3] == 1
}

/// Whether some capability gives this ASN.
pub open spec fn offers_asn(s: Seq<Capability>, asn: u32) -> bool {
    exists|i: int| 0 <= i < s.len() && (#[trigger] s[i]).code == 65 && be_value(s[i].data) == asn
}

/// What is known after a list, given what was known before.
spec fn gathered(s: Seq<Capability>, c: Capabilities) -> Capabilities {
    Capabilities {
        as4: if offers_code(s, 65) {
            let i = choose|i: int| 0 <= i < s.len() && (#[trigger] s[i]).code == 65;
            Some(be_value(s[i].data) as u32)
        } else {
            c.as4
        },
        mp: c.mp || offers_code(s, 1),
        v4: c.v4 || offers_family(s, 1),
        v6: c.v6 || offers_family(s, 2),
    }
}

/// The list agrees with an ASN that is known already.
spec fn asn_agrees(s: Seq<Capability>, c: Capabilities) -> bool {
    forall|i: int|
        0 <= i < s.len() && (#[trigger] s[i]).code == 65 ==> (c.as4 matches Some(a) ==> be_value(
            s[i].data,
        ) == a)
}

proof fn lemma_value4(d: Seq<u8>)
    requires
        d.len() == 4,
    ensures
        be_value(d) <= u32::MAX,
{
    lemma_be_of_be_value(d);
    lemma_pow256_small();
}

/// What a list adds is what its first capability adds, and then the rest.
proof fn lemma_gathered_first(s: Seq<Capability>, c: Capabilities)
    requires
        s.len() > 0,
        capabilities_sound(s),
        asn_agrees(s, c),
    ensures
        capability(s[0].code, s[0].data, c) matches Ok(d) && gathered(s, c) == gathered(
            s.skip(1),
            d,
        ) && asn_agrees(s.skip(1), d) && capabilities_sound(s.skip(1)),
{
    let rest = s.skip(1);
    let first = s[0];
    if first.code == 1 {
        lemma_be_value2(first.data.take(2));
    }
    if first.code == 65 {
        lemma_value4(first.data);
    }
    let d = capability(first.code, first.data, c)->Ok_0;
    assert forall|i: int| 0 <= i < rest.len() implies #[trigger] rest[i] == s[i + 1] by {}
    assert forall|i: int| 0 < i < s.len() implies #[trigger] s[i] == rest[i - 1] by {}
    assert forall|code: u8| offers_code(s, code) <==> first.code == code || offers_code(
        rest,
        code,
    ) by {
        if offers_code(s, code) {
            let i = choose|i: int| 0 <= i < s.len() && (#[trigger] s[i]).code == code;
            if i > 0 {
                assert(rest[i - 1].code == code);
            }
        }
        if offers_code(rest, code) {
            let i = choose|i: int| 0 <= i < rest.len() && (#[trigger] rest[i]).code == code;
            assert(s[i + 1].code == code);
        }
    }
    assert forall|afi: u8|
        offers_family(s, afi) <==> (first.code == 1 && first.data[0] == 0 && first.data[1] == afi
            && first.data[3] == 1) || offers_family(rest, afi) by {
        if offers_family(s, afi) {
            let i = choose|i: int|
                0 <= i < s.len() && (#[trigger] s[i]).code == 1 && s[i].data[0] == 0
                    && s[i].data[1] == afi && s[i].data[3] == 1;
            if i > 0 {
                assert(rest[i - 1].code == 1);
            }
        }
        if offers_family(rest, afi) {
            let i = choose|i: int|
                0 <= i < rest.len() && (#[trigger] rest[i]).code == 1 && rest[i].data[0] == 0
                    && rest[i].data[1] == afi && rest[i].data[3] == 1;
            assert(s[i + 1].code == 1);
        }
    }
    assert forall|i: int| 0 <= i < rest.len() && (#[trigger] rest[i]).code == 65 implies (
    d.as4 matches Some(a) ==> be_value(rest[i].data) == a) by {
        lemma_value4(rest[i].data);
        assert(s[i + 1].code == 65);
        if first.code == 65 {
            assert(s[0].data == s[i + 1].data);
        }
    }
    assert(capabilities_sound(rest)) by {
        assert forall|i: int, j: int|
            0 <= i < j < rest.len() && (#[trigger] rest[i]).code == 65 && (
            #[trigger] rest[j]).code == 65 implies rest[i].data == rest[j].data by {
            assert(s[i + 1].code == 65 && s[j + 1].code == 65);
        }
    }
    if offers_code(s, 65) {
        let k = choose|i: int| 0 <= i < s.len() && (#[trigger] s[i]).code == 65;
        if offers_code(rest, 65) {
            let m = choose|i: int| 0 <= i < rest.len() && (#[trigger] rest[i]).code == 65;
            assert(s[m + 1].code == 65);
            assert(s[k].data == rest[m].data) by {
                if k < m + 1 {
                    assert(s[k].data == s[m + 1].data);
                } else if m + 1 < k {
                    assert(s[m + 1].data == s[k].data);
                }
            }
        } else {
            assert(k == 0) by {
                if k > 0 {
                    assert(rest[k - 1].code == 65);
                }
            }
        }
    }
}

/// A list of sound capabilities, and then what follows it.
proof fn lemma_capabilities(s: Seq<Capability>, c: Capabilities)
    requires
        capabilities_fit(s),
        capabilities_sound(s),
        asn_agrees(s, c),
    ensures
        capabilities(capability_octets(s), c) == Ok::<Capabilities, Fault>(gathered(s, c)),
    decreases s.len(),
{
    let b = capability_octets(s);
    if s.len() > 0 {
        let rest = s.skip(1);
        lemma_gathered_first(s, c);
        let d = capability(s[0].code, s[0].data, c)->Ok_0;
        assert forall|i: int| 0 <= i < rest.len() implies (#[trigger] rest[i]).data.len()
            <= 255 by {
            assert(rest[i] == s[i + 1]);
        }
        assert(s[0].data.len() <= 255);
        lemma_capabilities(rest, d);
        let end = 2 + s[0].data.len() as int;
        assert(b.subrange(2, end) =~= s[0].data);
        assert(b.skip(end) =~= capability_octets(rest));
    } else {
        assert(!offers_code(s, 65) && !offers_code(s, 1));
        assert(!offers_family(s, 1) && !offers_family(s, 2));
    }
}

/// Lists of capabilities, put together.
pub open spec fn all_of(lists: Seq<Seq<Capability>>) -> Seq<Capability>
    decreases lists.len(),
{
    if lists.len() == 0 {
        Seq::empty()
    } else {
        lists[0] + all_of(lists.skip(1))
    }
}

/// Optional parameters that each hold a list of capabilities. The length of one takes
/// two octets where the OPEN is an extended one.
pub open spec fn parameter_octets(lists: Seq<Seq<Capability>>, extended: bool) -> Seq<u8>
    decreases lists.len(),
{
    if lists.len() == 0 {
        Seq::empty()
    } else {
        let caps = capability_octets(lists[0]);
        seq![2u8] + be(
            caps.len(),
            if extended {
                2
            } else {
                1
            },
        ) + caps + parameter_octets(lists.skip(1), extended)
    }
}

/// Every parameter can be written.
pub open spec fn parameters_fit(lists: Seq<Seq<Capability>>, extended: bool) -> bool {
    forall|i: int|
        0 <= i < lists.len() ==> capabilities_fit(#[trigger] lists[i]) && capability_octets(
            lists[i],
        ).len() <= if extended {
            0xffffint
        } else {
            255
        }
}

proof fn lemma_sound_parts(a: Seq<Capability>, b: Seq<Capability>, c: Capabilities)
    requires
        capabilities_sound(a + b),
        asn_agrees(a + b, c),
    ensures
        capabilities_sound(a),
        asn_agrees(a, c),
        capabilities_sound(b),
        asn_agrees(b, gathered(a, c)),
        gathered(b, gathered(a, c)) == gathered(a + b, c),
    decreases a.len(),
{
    let s = a + b;
    assert forall|i: int| 0 <= i < a.len() implies #[trigger] a[i] == s[i] by {}
    assert forall|i: int| 0 <= i < b.len() implies #[trigger] b[i] == s[i + a.len()] by {}
    if a.len() == 0 {
        assert(s =~= b);
        assert(!offers_code(a, 65) && !offers_code(a, 1));
        assert(!offers_family(a, 1) && !offers_family(a, 2));
    } else {
        let rest = a.skip(1);
        assert(s.skip(1) =~= rest + b);
        assert(capabilities_sound(a)) by {
            assert forall|i: int, j: int|
                0 <= i < j < a.len() && (#[trigger] a[i]).code == 65 && (
                #[trigger] a[j]).code == 65 implies a[i].data == a[j].data by {
                assert(s[i].code == 65 && s[j].code == 65);
            }
        }
        lemma_gathered_first(s, c);
        lemma_gathered_first(a, c);
        let d = capability(s[0].code, s[0].data, c)->Ok_0;
        lemma_sound_parts(rest, b, d);
    }
}

/// Parameters hold what their capabilities say, however these are spread over them.
proof fn lemma_parameters(lists: Seq<Seq<Capability>>, extended: bool, c: Capabilities)
    requires
        parameters_fit(lists, extended),
        capabilities_sound(all_of(lists)),
        asn_agrees(all_of(lists), c),
    ensures
        parameters(parameter_octets(lists, extended), extended, c) == Ok::<Capabilities, Fault>(
            gathered(all_of(lists), c),
        ),
    decreases lists.len(),
{
    let b = parameter_octets(lists, extended);
    if lists.len() > 0 {
        let rest = lists.skip(1);
        let caps = capability_octets(lists[0]);
        let d = gathered(lists[0], c);
        lemma_sound_parts(lists[0], all_of(rest), c);
        assert forall|i: int| 0 <= i < rest.len() implies capabilities_fit(#[trigger] rest[i])
            && capability_octets(rest[i]).len() <= if extended {
            0xffffint
        } else {
            255
        } by {
            assert(rest[i] == lists[i + 1]);
        }
        assert(capabilities_fit(lists[0]));
        lemma_capabilities(lists[0], c);
        lemma_parameters(rest, extended, d);
        lemma_be2(caps.len());
        lemma_be_value_of_be(caps.len(), 2);
        reveal_with_fuel(be, 3);
        let header: int = if extended {
            3
        } else {
            2
        };
        let end = header + caps.len();
        if extended {
            assert(b.subrange(1, 3) =~= be(caps.len(), 2));
        } else {
            assert(b[1] == caps.len());
        }
        assert(b.subrange(header, end) =~= caps);
        assert(b.skip(end) =~= parameter_octets(rest, extended));
    } else {
        assert(gathered(all_of(lists), c) == c) by {
            let s = all_of(lists);
            assert(!offers_code(s, 65) && !offers_code(s, 1));
            assert(!offers_family(s, 1) && !offers_family(s, 2));
        }
    }
}

/// An OPEN body: version four, a two-octet ASN, a hold time, an identifier, and
/// parameters. The length of these takes an octet, or two after a mark where the OPEN
/// is an extended one; `unused` is the octet that then no longer counts.
pub open spec fn open_octets(
    asn: u16,
    hold: u16,
    id: Seq<u8>,
    lists: Seq<Seq<Capability>>,
    extended: bool,
    unused: u8,
) -> Seq<u8> {
    let params = parameter_octets(lists, extended);
    seq![4u8] + be(asn as nat, 2) + be(hold as nat, 2) + id + (if extended {
        seq![unused, 255u8] + be(params.len(), 2)
    } else {
        seq![params.len() as u8]
    }) + params
}

/// The two-octet form of an ASN.
pub open spec fn two_octets(asn: u32) -> int {
    if asn <= 65535 {
        asn as int
    } else {
        23456
    }
}

/// What an OPEN of sound capabilities leads to. Neither their order nor how they are
/// spread over parameters matters: a family is agreed on exactly where the peer is
/// configured for it and some capability offers it, and IPv4 also where no
/// multiprotocol capability is there at all; four-octet ASNs exactly where some
/// capability gives the ASN. The hold time is the shorter of the two.
pub proof fn law_open_is_judged_by_its_capabilities(
    asn: u16,
    hold: u16,
    id: Seq<u8>,
    lists: Seq<Seq<Capability>>,
    extended: bool,
    unused: u8,
    cfg: Config,
    p: Peer,
)
    requires
        id.len() == 4,
        parameters_fit(lists, extended),
        capabilities_sound(all_of(lists)),
        parameter_octets(lists, extended).len() <= if extended {
            0xffffint
        } else {
            255
        },
        extended ==> unused != 0,
    ensures
        ({
            let s = all_of(lists);
            let r = negotiation(open_octets(asn, hold, id, lists, extended, unused), cfg, p);
            let ipv4 = p.ipv4 && (offers_family(s, 1) || !offers_code(s, 1));
            let ipv6 = p.ipv6 && offers_family(s, 2);
            if hold == 1 || hold == 2 {
                r matches Err(f) && f.code == 2 && f.subcode == 6
            } else if id == seq![0u8, 0, 0, 0] || (cfg.asn == p.remote_asn && be_value(id)
                == cfg.router_id.bits) {
                r matches Err(f) && f.code == 2 && f.subcode == 3
            } else if asn != two_octets(p.remote_asn) || (if offers_code(s, 65) {
                !offers_asn(s, p.remote_asn)
            } else {
                p.remote_asn > 65535
            }) {
                r matches Err(f) && f.code == 2 && f.subcode == 2
            } else if !ipv4 && !ipv6 {
                r matches Err(f) && f.code == 2 && f.subcode == 7 && f.data == (if p.ipv4 {
                    seq![1u8, 4, 0, 1, 0, 1]
                } else {
                    Seq::empty()
                }) + (if p.ipv6 {
                    seq![1u8, 4, 0, 2, 0, 1]
                } else {
                    Seq::empty()
                })
            } else {
                r matches Ok(n) && {
                    &&& n.router_id.bits == be_value(id)
                    &&& n.hold <= hold && n.hold <= p.hold_time_secs
                    &&& n.hold == hold || n.hold == p.hold_time_secs
                    &&& n.asn4 == offers_code(s, 65)
                    &&& n.internal == (cfg.asn == p.remote_asn)
                    &&& n.ipv4 == ipv4
                    &&& n.ipv6 == ipv6
                }
            }
        }),
{
    let s = all_of(lists);
    let b = open_octets(asn, hold, id, lists, extended, unused);
    let params = parameter_octets(lists, extended);
    let none = no_capabilities();
    lemma_be2(asn as nat);
    lemma_be2(hold as nat);
    lemma_be2(params.len());
    lemma_be_value_of_be(asn as nat, 2);
    lemma_be_value_of_be(hold as nat, 2);
    lemma_be_value_of_be(params.len(), 2);
    lemma_value4(id);
    assert(b.subrange(1, 3) =~= be(asn as nat, 2));
    assert(b.subrange(3, 5) =~= be(hold as nat, 2));
    assert(b.subrange(5, 9) =~= id);
    assert(be_value(id) == 0 <==> id == seq![0u8, 0, 0, 0]) by {
        crate::bytes::lemma_be_value4(id);
        if be_value(id) == 0 {
            assert(id =~= seq![0u8, 0, 0, 0]);
        }
    }
    lemma_parameters(lists, extended, none);
    let c = gathered(s, none);
    if extended {
        assert(b.subrange(11, 13) =~= be(params.len(), 2));
        assert(b.skip(13) =~= params);
    } else {
        assert(b.skip(10) =~= params);
        if params.len() > 0 {
            assert(lists.len() > 0);
            assert(b[10] == params[0]);
        }
    }
    assert(announced(b) == Ok::<Capabilities, Fault>(c));
    if offers_code(s, 65) {
        let i = choose|i: int| 0 <= i < s.len() && (#[trigger] s[i]).code == 65;
        lemma_value4(s[i].data);
        assert(c.as4 == Some(be_value(s[i].data) as u32));
        assert(offers_asn(s, p.remote_asn) <==> be_value(s[i].data) == p.remote_asn) by {
            if offers_asn(s, p.remote_asn) {
                let j = choose|j: int|
                    0 <= j < s.len() && (#[trigger] s[j]).code == 65 && be_value(s[j].data)
                        == p.remote_asn;
                if i < j {
                    assert(s[i].data == s[j].data);
                } else if j < i {
                    assert(s[j].data == s[i].data);
                }
            }
        }
    }
    assert((if p.ipv4 {
        seq![1u8, 4, 0, 1, 0, 1]
    } else {
        Seq::empty()
    }) + (if p.ipv6 {
        seq![1u8, 4, 0, 2, 0, 1]
    } else {
        Seq::empty()
    }) =~= crate::wire::open::family_capabilities(p.ipv4, p.ipv6));
}

/// A capability list is refused where a value has not the size that its code asks for
/// or where two ASNs differ, and taken in where neither is so; codes that are not known
/// never matter.
pub proof fn law_unsound_capabilities_are_refused(s: Seq<Capability>)
    requires
        capabilities_fit(s),
    ensures
        capabilities(capability_octets(s), no_capabilities()) is Ok <==> capabilities_sound(s),
        capabilities(capability_octets(s), no_capabilities()) matches Err(f) ==> f.code == 2 && (
        f.subcode == 0 || f.subcode == 2),
{
    lemma_refused(s, no_capabilities());
    if capabilities_sound(s) {
        lemma_capabilities(s, no_capabilities());
    }
}

proof fn lemma_refused(s: Seq<Capability>, c: Capabilities)
    requires
        capabilities_fit(s),
    ensures
        capabilities(capability_octets(s), c) is Ok ==> capabilities_sound(s) && asn_agrees(s, c),
        capabilities(capability_octets(s), c) matches Err(f) ==> f.code == 2 && (f.subcode == 0
            || f.subcode == 2),
    decreases s.len(),
{
    let b = capability_octets(s);
    if s.len() > 0 {
        let rest = s.skip(1);
        assert forall|i: int| 0 <= i < rest.len() implies (#[trigger] rest[i]).data.len()
            <= 255 by {
            assert(rest[i] == s[i + 1]);
        }
        assert(s[0].data.len() <= 255);
        let end = 2 + s[0].data.len() as int;
        assert(b.subrange(2, end) =~= s[0].data);
        assert(b.skip(end) =~= capability_octets(rest));
        if let Ok(d) = capability(s[0].code, s[0].data, c) {
            lemma_refused(rest, d);
            if capabilities(b, c) is Ok {
                if s[0].code == 65 {
                    lemma_value4(s[0].data);
                }
                assert forall|i: int| 0 < i < s.len() implies #[trigger] s[i] == rest[i - 1] by {}
                assert forall|i: int, j: int|
                    0 <= i < j < s.len() && (#[trigger] s[i]).code == 65 && (
                    #[trigger] s[j]).code == 65 implies s[i].data == s[j].data by {
                    assert(rest[j - 1].code == 65);
                    if i == 0 {
                        lemma_value4(s[0].data);
                        assert(be_value(rest[j - 1].data) == be_value(s[0].data));
                        lemma_be_of_be_value(s[0].data);
                        lemma_be_of_be_value(rest[j - 1].data);
                    } else {
                        assert(rest[i - 1].code == 65);
                    }
                }
                assert forall|i: int| 0 <= i < s.len() && (#[trigger] s[i]).code == 65 implies (
                c.as4 matches Some(a) ==> be_value(s[i].data) == a) by {
                    if i > 0 {
                        assert(rest[i - 1].code == 65);
                    }
                }
            }
        }
    }
}

/// What comes before the capabilities of an OPEN: a body that is too short, of another
/// version, or whose parameters do not fill it is refused.
pub proof fn law_misshapen_open_is_refused(b: Seq<u8>, cfg: Config, p: Peer)
    ensures
        b.len() < 10 ==> (negotiation(b, cfg, p) matches Err(f) && f.code == 2 && f.subcode == 0),
        b.len() >= 10 && b[0] != 4 ==> (negotiation(b, cfg, p) matches Err(f) && f.code == 2
            && f.subcode == 1 && f.data == seq![0u8, 4]),
        b.len() >= 10 && !(b[9] != 0 && b.len() > 10 && b[10] == 255) && b[9] + 10 != b.len()
            ==> negotiation(b, cfg, p) is Err,
        b.len() >= 13 && b[9] != 0 && b[10] == 255 && b[11] * 256 + b[12] + 13 != b.len()
            ==> negotiation(b, cfg, p) is Err,
        b.len() >= 13 && b[9] + 10 == b.len() && b[10] != 2 && b[10] != 255 && b[11] + 12
            <= b.len() ==> (announced(b) matches Err(f) && f.code == 2 && f.subcode == 4 && f.data
            == b.subrange(10, 12 + b[11])),
{
    if b.len() >= 13 {
        lemma_be_value2(b.subrange(11, 13));
        let q = b.skip(10);
        if b[11] + 12 <= b.len() {
            assert(q.take(2 + b[11] as int) =~= b.subrange(10, 12 + b[11]));
        }
    }
}

/// The OPEN that is sent offers four-octet ASNs with the local one, route refresh, and
/// each family that the peer is configured for, in one parameter.
pub proof fn law_sent_open_holds_its_offers(cfg: Config, peer: Peer)
    ensures
        ({
            let s = seq![
                Capability { code: 65, data: be(cfg.asn as nat, 4) },
                Capability { code: 2, data: Seq::empty() },
            ] + (if peer.ipv4 {
                seq![Capability { code: 1, data: seq![0u8, 1, 0, 1] }]
            } else {
                Seq::empty()
            }) + (if peer.ipv6 {
                seq![Capability { code: 1, data: seq![0u8, 2, 0, 1] }]
            } else {
                Seq::empty()
            });
            &&& open_body(cfg, peer) == open_octets(
                two_octets(cfg.asn) as u16,
                peer.hold_time_secs,
                be(cfg.router_id.bits as nat, 4),
                seq![s],
                false,
                0,
            )
            &&& be_value(be(cfg.asn as nat, 4)) == cfg.asn
            &&& be_value(be(cfg.router_id.bits as nat, 4)) == cfg.router_id.bits
        }),
{
    let v4 = if peer.ipv4 {
        seq![Capability { code: 1, data: seq![0u8, 1, 0, 1] }]
    } else {
        Seq::empty()
    };
    let v6 = if peer.ipv6 {
        seq![Capability { code: 1, data: seq![0u8, 2, 0, 1] }]
    } else {
        Seq::empty()
    };
    let asn = Capability { code: 65, data: be(cfg.asn as nat, 4) };
    let refresh = Capability { code: 2, data: Seq::empty() };
    let s = seq![asn, refresh] + v4 + v6;
    lemma_be_len(cfg.asn as nat, 4);
    lemma_pow256_small();
    lemma_be_value_of_be(cfg.asn as nat, 4);
    lemma_be_value_of_be(cfg.router_id.bits as nat, 4);
    let tail = s.skip(1).skip(1);
    assert(tail =~= v4 + v6);
    assert(s.skip(1)[0] == refresh);
    let nothing = Seq::<Capability>::empty();
    assert(capability_octets(nothing) =~= Seq::<u8>::empty());
    if peer.ipv6 {
        assert(v6.skip(1) =~= nothing);
    }
    assert(capability_octets(v6) =~= crate::wire::open::family_capabilities(false, peer.ipv6));
    if peer.ipv4 {
        assert(tail.skip(1) =~= v6);
        assert(tail[0] == v4[0]);
    } else {
        assert(tail =~= v6);
    }
    assert(capability_octets(tail) =~= crate::wire::open::family_capabilities(
        peer.ipv4,
        peer.ipv6,
    ));
    assert(capability_octets(s.skip(1)) =~= seq![2u8, 0] + capability_octets(tail));
    assert(capability_octets(s) =~= crate::wire::open::offered(cfg.asn, peer.ipv4, peer.ipv6));
    let lists = seq![s];
    assert(lists.skip(1) =~= Seq::<Seq<Capability>>::empty());
    reveal_with_fuel(be, 2);
    let caps = capability_octets(s);
    assert(be(caps.len(), 1) =~= seq![caps.len() as u8]);
    assert(parameter_octets(Seq::empty(), false) =~= Seq::<u8>::empty());
    assert(parameter_octets(lists, false) =~= seq![2u8] + be(caps.len(), 1) + caps);
    assert(parameter_octets(lists, false) =~= seq![2u8, caps.len() as u8] + caps);
    assert(open_body(cfg, peer) =~= open_octets(
        two_octets(cfg.asn) as u16,
        peer.hold_time_secs,
        be(cfg.router_id.bits as nat, 4),
        lists,
        false,
        0,
    ));
}

/// Parameters that hold unsound capabilities are refused, wherever these are, and so is a
/// list of capabilities that is cut off.
pub proof fn law_unsound_parameters_are_refused(
    lists: Seq<Seq<Capability>>,
    extended: bool,
    b: Seq<u8>,
    c: Capabilities,
)
    requires
        parameters_fit(lists, extended),
    ensures
        parameters(parameter_octets(lists, extended), extended, no_capabilities()) is Ok
            <==> capabilities_sound(all_of(lists)),
        b.len() == 1 ==> capabilities(b, c) is Err,
        b.len() >= 2 && b[1] + 2 > b.len() ==> capabilities(b, c) is Err,
{
    lemma_parameters_refused(lists, extended, no_capabilities());
    if capabilities_sound(all_of(lists)) {
        lemma_parameters(lists, extended, no_capabilities());
    }
}

proof fn lemma_parameters_refused(lists: Seq<Seq<Capability>>, extended: bool, c: Capabilities)
    requires
        parameters_fit(lists, extended),
    ensures
        parameters(parameter_octets(lists, extended), extended, c) is Ok ==> capabilities_sound(
            all_of(lists),
        ) && asn_agrees(all_of(lists), c),
    decreases lists.len(),
{
    let b = parameter_octets(lists, extended);
    if lists.len() > 0 && parameters(b, extended, c) is Ok {
        let rest = lists.skip(1);
        let first = lists[0];
        let caps = capability_octets(first);
        assert forall|i: int| 0 <= i < rest.len() implies capabilities_fit(#[trigger] rest[i])
            && capability_octets(rest[i]).len() <= if extended {
            0xffffint
        } else {
            255
        } by {
            assert(rest[i] == lists[i + 1]);
        }
        assert(capabilities_fit(first));
        lemma_be2(caps.len());
        lemma_be_value_of_be(caps.len(), 2);
        reveal_with_fuel(be, 3);
        let header: int = if extended {
            3
        } else {
            2
        };
        let end = header + caps.len();
        if extended {
            assert(b.subrange(1, 3) =~= be(caps.len(), 2));
        } else {
            assert(b[1] == caps.len());
        }
        assert(b.subrange(header, end) =~= caps);
        assert(b.skip(end) =~= parameter_octets(rest, extended));
        lemma_refused(first, c);
        lemma_capabilities(first, c);
        let d = gathered(first, c);
        lemma_parameters_refused(rest, extended, d);
        lemma_sound_together(first, all_of(rest), c);
    }
}

proof fn lemma_sound_together(a: Seq<Capability>, b: Seq<Capability>, c: Capabilities)
    requires
        capabilities_sound(a),
        asn_agrees(a, c),
        capabilities_sound(b),
        asn_agrees(b, gathered(a, c)),
    ensures
        capabilities_sound(a + b),
        asn_agrees(a + b, c),
{
    let s = a + b;
    let n = a.len() as int;
    let d = gathered(a, c);
    assert forall|i: int| 0 <= i < a.len() implies #[trigger] s[i] == a[i] by {}
    assert forall|i: int| n <= i < s.len() implies #[trigger] s[i] == b[i - n] by {}
    assert forall|i: int| 0 <= i < a.len() && (#[trigger] a[i]).code == 65 implies d.as4 == Some(
        be_value(a[i].data) as u32,
    ) && be_value(a[i].data) <= u32::MAX by {
        assert(offers_code(a, 65));
        let k = choose|k: int| 0 <= k < a.len() && (#[trigger] a[k]).code == 65;
        lemma_value4(a[i].data);
        if i < k {
            assert(a[i].data == a[k].data);
        } else if k < i {
            assert(a[k].data == a[i].data);
        }
    }
    assert forall|i: int, j: int|
        0 <= i < j < s.len() && (#[trigger] s[i]).code == 65 && (
        #[trigger] s[j]).code == 65 implies s[i].data == s[j].data by {
        if j < n {
            assert(a[i].code == 65 && a[j].code == 65);
        } else if i >= n {
            assert(b[i - n].code == 65 && b[j - n].code == 65);
        } else {
            assert(a[i].code == 65);
            assert(b[j - n].code == 65);
            lemma_be_of_be_value(a[i].data);
            lemma_be_of_be_value(b[j - n].data);
        }
    }
    assert forall|i: int| 0 <= i < s.len() && (#[trigger] s[i]).code == 65 implies (
    c.as4 matches Some(x) ==> be_value(s[i].data) == x) by {
        if i < n {
            assert(a[i].code == 65);
        } else {
            assert(b[i - n].code == 65);
            if offers_code(a, 65) {
                let k = choose|k: int| 0 <= k < a.len() && (#[trigger] a[k]).code == 65;
                assert(a[k].code == 65);
            }
        }
    }
}

/// A capability adds to what is known of a peer, and takes nothing of it back: a family
/// that was offered stays offered whatever comes after it, and so does an ASN.
pub proof fn law_capability_takes_nothing_back(code: u8, data: Seq<u8>, c: Capabilities)
    ensures
        capability(code, data, c) matches Ok(d) ==> {
            &&& c.v4 ==> d.v4
            &&& c.v6 ==> d.v6
            &&& c.mp ==> d.mp
            &&& c.as4 is Some ==> d.as4 == c.as4
            &&& code == 1 ==> d.mp && d.as4 == c.as4
            &&& code != 1 ==> d.v4 == c.v4 && d.v6 == c.v6 && d.mp == c.mp
            &&& code == 65 ==> d.as4 == Some(be_value(data) as u32)
            &&& code != 65 ==> d.as4 == c.as4
            &&& code == 1 && data == seq![0u8, 1, data[2], 1] ==> d.v4 && d.v6 == c.v6
            &&& code == 1 && data == seq![0u8, 2, data[2], 1] ==> d.v6 && d.v4 == c.v4
            &&& code == 1 && data[3] != 1 ==> d.v4 == c.v4 && d.v6 == c.v6
        },
        capability(code, data, c) is Err <==> (code == 1 && data.len() != 4) || (code == 2
            && data.len() != 0) || (code == 65 && (data.len() != 4 || (c.as4 is Some && c.as4->0
            != be_value(data)))),
        capability(code, data, c) matches Err(e) ==> e.code == 2 && e.data.len() == 0 && e.subcode
            == if code == 65 && data.len() == 4 {
            2int
        } else {
            0
        },
{
    if code == 1 && data.len() == 4 {
        lemma_be_value2(data.take(2));
    }
}

/// An OPEN is answered by what was agreed on, or by one fault of its own.
pub proof fn law_open_is_parsed(
    b: &[u8],
    cfg: &Config,
    p: &Peer,
    r: Result<Negotiated, ProtocolError>,
)
    requires
        call_ensures(parse_open, (b, cfg, p), r),
    ensures
        r is Ok <==> negotiation(b@, *cfg, *p) is Ok,
        r matches Ok(n) ==> {
            &&& negotiation(b@, *cfg, *p) == Ok::<Negotiated, Fault>(n)
            &&& n.internal <==> cfg.asn == p.remote_asn
            &&& n.hold <= p.hold_time_secs
            &&& p.hold_time_secs != 1 && p.hold_time_secs != 2 ==> n.hold == 0 || n.hold >= 3
            &&& n.ipv4 ==> p.ipv4
            &&& n.ipv6 ==> p.ipv6
            &&& n.ipv4 || n.ipv6
            &&& n.router_id.bits != 0
        },
        r matches Err(e) ==> negotiation(b@, *cfg, *p) == Err::<Negotiated, Fault>(e@),
{
}

/// What is sent to open a session names this router: its ASN, or the number that stands
/// for it, the hold time that it wants, and its identifier.
pub proof fn law_open_names_its_sender(cfg: &Config, peer: &Peer, r: Vec<u8>)
    requires
        call_ensures(open, (cfg, peer), r),
    ensures
        r@[18] == 1 && r@.len() <= 4096,
        r@.skip(19) == open_body(*cfg, *peer),
        r@[19] == 4,
        r@[20] * 256 + r@[21] == if cfg.asn <= 65535 {
            cfg.asn as int
        } else {
            23456
        },
        r@[22] * 256 + r@[23] == peer.hold_time_secs,
        be_value(r@.subrange(24, 28)) == cfg.router_id.bits,
{
    let b = open_body(*cfg, *peer);
    lemma_be_len(cfg.router_id.bits as nat, 4);
    lemma_be_len(cfg.asn as nat, 4);
    lemma_be2(if cfg.asn <= 65535 {
        cfg.asn as nat
    } else {
        23456
    });
    lemma_be2(peer.hold_time_secs as nat);
    lemma_pow256_small();
    lemma_be_value_of_be(cfg.router_id.bits as nat, 4);
    law_message_is_framed(1, b, 0);
    assert(r@.subrange(24, 28) =~= be(cfg.router_id.bits as nat, 4));
    assert forall|i: int| 0 <= i < b.len() implies r@[19 + i] == b[i] by {
        assert(r@.skip(19)[i] == b[i]);
    }
    assert(b[1] == r@[20] && b[2] == r@[21] && b[3] == r@[22] && b[4] == r@[23]);
}

} // verus!
