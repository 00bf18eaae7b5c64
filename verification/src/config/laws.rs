//! What a configuration means: laws over its fields, with every bound spelled out.
use vstd::arithmetic::power2::pow2;
use vstd::prelude::*;
use vstd::utf8::encode_utf8;

use crate::addr::{IpAddr, Ipv4Addr, Ipv6Addr};
use crate::config::{
    acl_problem, acls_problem, column_after, connect_timeout, first_problem, hold,
    law_first_match_decides, law_no_match_denies, law_valid_means_in_order,
    lemma_acls_problem_stays, lemma_peers_problem_stays, line_ends, peer_problem, peers_problem,
    port, rule_problem, settings_problem, syntax_message, syntax_text, valid_router_id, valid_v4,
    valid_v6, write_timeout, yes, Acl, Action, Config, ConfigError, Md5Key, NamedAcl, Peer, Rule,
};
use crate::net::{law_covers_means_shared_bits, IpNet};
use crate::text::{addr_text, decimal, quoted};

verus! {

/// Addresses that a host can have, by their number: not zero, not all ones, and no
/// first octet from 224 to 239; in IPv6 not zero and no first octet of ones. An
/// identifier need only not be zero.
pub proof fn law_host_addresses(a: Ipv4Addr, b: Ipv6Addr)
    ensures
        valid_v4(a) <==> 0 < a.bits < 0xe000_0000 || 0xf000_0000 <= a.bits < 0xffff_ffff,
        valid_v6(b) <==> 0 < b.bits < 0xff00_0000_0000_0000_0000_0000_0000_0000,
        valid_router_id(a) <==> a.bits > 0,
        b.is_unicast_link_local() <==> 0xfe80_0000_0000_0000_0000_0000_0000_0000 <= b.bits
            < 0xfec0_0000_0000_0000_0000_0000_0000_0000,
        IpAddr::V4(a).is_loopback() <==> 0x7f00_0000 <= a.bits < 0x8000_0000,
        IpAddr::V6(b).is_loopback() <==> b.bits == 1,
{
}

/// The next hop of a family is the one that is set, else the local address where it is
/// of that family.
pub proof fn law_next_hop_is_set_or_local(p: Peer)
    ensures
        p.next_hop_v4 is Some ==> p.nh4() == p.next_hop_v4,
        p.next_hop_v6 is Some ==> p.nh6() == p.next_hop_v6,
        p.next_hop_v4 is None ==> (p.nh4() matches Some(a) ==> p.local_address == IpAddr::V4(a)),
        p.next_hop_v6 is None ==> (p.nh6() matches Some(a) ==> p.local_address == IpAddr::V6(a)),
        p.next_hop_v4 is None && p.local_address is V4 ==> p.nh4() is Some,
        p.next_hop_v6 is None && p.local_address is V6 ==> p.nh6() is Some,
{
}

/// A rule matches a prefix of its family that agrees with it on its leading bits and
/// whose length is in range. Without a lower or an upper bound the rule's own length
/// is that bound.
pub proof fn law_rule_matches_by_leading_bits(r: Rule, p: IpNet)
    requires
        r.prefix.wf(),
        p.wf(),
    ensures
        r.matches(p) <==> {
            &&& p.prefix_len >= r.prefix.prefix_len
            &&& match r.min_length {
                Some(n) => p.prefix_len >= n,
                None => true,
            }
            &&& match r.max_length {
                Some(n) => p.prefix_len <= n,
                None => p.prefix_len <= r.prefix.prefix_len,
            }
            &&& match (r.prefix.addr, p.addr) {
                (IpAddr::V4(a), IpAddr::V4(b)) => a.bits as int / pow2(
                    (32 - r.prefix.prefix_len) as nat,
                ) as int == b.bits as int / pow2((32 - r.prefix.prefix_len) as nat) as int,
                (IpAddr::V6(a), IpAddr::V6(b)) => a.bits as int / pow2(
                    (128 - r.prefix.prefix_len) as nat,
                ) as int == b.bits as int / pow2((128 - r.prefix.prefix_len) as nat) as int,
                _ => false,
            }
        },
{
    law_covers_means_shared_bits(r.prefix, p);
}

/// Rules are tried in order: whatever comes after a rule that matches is of no account,
/// and a rule that does not match may as well not be there.
pub proof fn law_rules_are_tried_in_order(acl: Acl, other: Acl, p: IpNet)
    requires
        acl.rules@.len() > 0,
        other.rules@ == acl.rules@.skip(1),
    ensures
        acl.rules@[0].matches(p) ==> (acl.allows(p) <==> acl.rules@[0].action is Permit),
        !acl.rules@[0].matches(p) ==> (acl.allows(p) <==> other.allows(p)),
{
    let (s, t) = (acl.rules@, other.rules@);
    if !s[0].matches(p) {
        if acl.allows(p) {
            let i = choose|i: int|
                #![trigger s[i]]
                0 <= i < s.len() && s[i].matches(p) && s[i].action == Action::Permit && forall|
                    j: int,
                |
                    0 <= j < i ==> !(#[trigger] s[j]).matches(p);
            assert(t[i - 1] == s[i]);
            assert forall|j: int| 0 <= j < i - 1 implies !(#[trigger] t[j]).matches(p) by {
                assert(t[j] == s[j + 1]);
            }
        }
        if other.allows(p) {
            let i = choose|i: int|
                #![trigger t[i]]
                0 <= i < t.len() && t[i].matches(p) && t[i].action == Action::Permit && forall|
                    j: int,
                |
                    0 <= j < i ==> !(#[trigger] t[j]).matches(p);
            assert(s[i + 1] == t[i]);
            assert forall|j: int| 0 <= j < i + 1 implies !(#[trigger] s[j]).matches(p) by {
                if j > 0 {
                    assert(s[j] == t[j - 1]);
                }
            }
        }
    }
}

/// The settings of a valid configuration, bound by bound.
pub proof fn law_valid_settings(c: Config)
    ensures
        first_problem(c) is None ==> {
            &&& c.management.listen.port > 0
            &&& match c.management.listen.ip {
                IpAddr::V4(a) => 0x7f00_0000 <= a.bits < 0x8000_0000,
                IpAddr::V6(a) => a.bits == 1,
            }
            &&& c.asn != 0 && c.asn != 23456
            &&& c.router_id.bits != 0
            &&& c.listen_port != 0
            &&& c.peers@.len() > 0
            &&& c.kernel.tables@.len() > 0 && !c.kernel.tables@.contains(0)
            &&& 65536 <= c.kernel.receive_buffer_bytes <= 1073741824
            &&& 10 <= c.kernel.refresh_interval_ms <= 60000
            &&& 1 <= c.kernel.reconcile_interval_secs <= 86400
            &&& 1 <= c.kernel.dump_timeout_secs < c.kernel.stale_timeout_secs <= 86400
            &&& c.kernel.max_prefixes > 0
        },
{
    law_valid_means_in_order(c);
}

/// The ACLs of a valid configuration: each has a name, and each of its rules a prefix
/// without host bits and lengths from that of the prefix up to that of an address.
pub proof fn law_valid_acls(c: Config, i: int, k: int)
    requires
        first_problem(c) is None,
        0 <= i < c.acls@.len(),
        0 <= k < c.acls@[i].acl.rules@.len(),
    ensures
        c.acls@[i].name@.len() > 0,
        ({
            let r = c.acls@[i].acl.rules@[k];
            let low = match r.min_length {
                Some(n) => n,
                None => r.prefix.prefix_len,
            };
            let high = match r.max_length {
                Some(n) => n,
                None => r.prefix.prefix_len,
            };
            &&& r.prefix.prefix_len <= low <= high
            &&& match r.prefix.addr {
                IpAddr::V4(a) => high <= 32 && a.bits as int % pow2(
                    (32 - r.prefix.prefix_len) as nat,
                ) as int == 0,
                IpAddr::V6(a) => high <= 128 && a.bits as int % pow2(
                    (128 - r.prefix.prefix_len) as nat,
                ) as int == 0,
            }
        }),
{
    law_valid_means_in_order(c);
    assert(crate::config::rule_ok(c.acls@[i].acl.rules@[k]));
}

/// Whether an address is one that a host can have, by its number.
pub open spec fn host(a: IpAddr) -> bool {
    match a {
        IpAddr::V4(a) => 0 < a.bits < 0xe000_0000 || 0xf000_0000 <= a.bits < 0xffff_ffff,
        IpAddr::V6(a) => 0 < a.bits < 0xff00_0000_0000_0000_0000_0000_0000_0000,
    }
}

/// The peers of a valid configuration, field by field.
pub proof fn law_valid_peers(c: Config, i: int)
    requires
        first_problem(c) is None,
        0 <= i < c.peers@.len(),
    ensures
        ({
            let p = c.peers@[i];
            &&& p.md5_password matches Some(key) ==> 1 <= encode_utf8(key.text@).len() <= 80
            &&& exists|j: int| 0 <= j < c.acls@.len() && (#[trigger] c.acls@[j]).name@
                == p.export_acl@
            &&& p.remote_asn != 0 && p.remote_asn != 23456 && p.port != 0
            &&& p.address != p.local_address && (p.address is V4) == (p.local_address is V4)
            &&& host(p.address) && host(p.local_address)
            &&& encode_utf8(p.interface@).len() <= 15 && p.interface@.len() > 0
                && !p.interface@.contains('\0')
            &&& p.hold_time_secs != 1 && p.hold_time_secs != 2
            &&& 1 <= p.connect_timeout_secs <= 86400
            &&& 1 <= p.write_timeout_secs <= 86400
            &&& p.ipv4 || p.ipv6
            &&& p.ipv6 || p.address is V6 || p.next_hop_v6 is Some || p.next_hop_v6_link_local is Some
                ==> c.ipv6
            &&& p.ipv4 ==> (p.nh4() matches Some(a) && host(IpAddr::V4(a)))
            &&& p.ipv6 ==> (p.nh6() matches Some(a) && host(IpAddr::V6(a)) && !(
            0xfe80_0000_0000_0000_0000_0000_0000_0000 <= a.bits
                < 0xfec0_0000_0000_0000_0000_0000_0000_0000))
            &&& p.next_hop_v6_link_local matches Some(a)
                ==> 0xfe80_0000_0000_0000_0000_0000_0000_0000 <= a.bits
                < 0xfec0_0000_0000_0000_0000_0000_0000_0000
            &&& forall|j: int|
                0 <= j < c.peers@.len() && j != i ==> !((#[trigger] c.peers@[j]).address
                    == p.address && c.peers@[j].local_address == p.local_address
                    && c.peers@[j].interface@ == p.interface@)
        }),
{
    law_valid_means_in_order(c);
    let p = c.peers@[i];
    assert(crate::config::peer_ok(c, p));
    assert forall|j: int| 0 <= j < c.peers@.len() && j != i implies !((
    #[trigger] c.peers@[j]).address == p.address && c.peers@[j].local_address == p.local_address
        && c.peers@[j].interface@ == p.interface@) by {
        if j < i {
            assert(!crate::config::same_endpoint(c.peers@[j], c.peers@[i]));
        } else {
            assert(!crate::config::same_endpoint(c.peers@[i], c.peers@[j]));
        }
    }
}

/// A rule with a prefix without host bits and possible lengths, field by field.
pub open spec fn rule_possible(r: Rule) -> bool {
    let low = match r.min_length {
        Some(n) => n,
        None => r.prefix.prefix_len,
    };
    let high = match r.max_length {
        Some(n) => n,
        None => r.prefix.prefix_len,
    };
    &&& r.prefix.prefix_len <= low <= high
    &&& match r.prefix.addr {
        IpAddr::V4(a) => high <= 32 && a.bits as int % pow2(
            (32 - r.prefix.prefix_len) as nat,
        ) as int == 0,
        IpAddr::V6(a) => high <= 128 && a.bits as int % pow2(
            (128 - r.prefix.prefix_len) as nat,
        ) as int == 0,
    }
}

/// Nothing more is asked of a configuration: where every setting keeps its bounds, every
/// ACL has a name and possible rules, and every peer has an ACL that exists, usable
/// addresses and an endpoint of its own, it is valid. Neither four-octet ASNs, a hold
/// time of zero, IPv6 alone nor ACLs that no peer uses stand in the way.
pub proof fn law_nothing_more_is_asked(c: Config)
    requires
        match c.management.listen.ip {
            IpAddr::V4(a) => 0x7f00_0000 <= a.bits < 0x8000_0000,
            IpAddr::V6(a) => a.bits == 1,
        },
        c.management.listen.port > 0,
        c.asn != 0 && c.asn != 23456,
        c.router_id.bits != 0,
        c.listen_port != 0,
        c.peers@.len() > 0,
        c.kernel.tables@.len() > 0 && !c.kernel.tables@.contains(0),
        65536 <= c.kernel.receive_buffer_bytes <= 1073741824,
        10 <= c.kernel.refresh_interval_ms <= 60000,
        1 <= c.kernel.reconcile_interval_secs <= 86400,
        1 <= c.kernel.dump_timeout_secs < c.kernel.stale_timeout_secs <= 86400,
        c.kernel.max_prefixes > 0,
        forall|i: int| 0 <= i < c.acls@.len() ==> (#[trigger] c.acls@[i]).name@.len() > 0,
        forall|i: int, k: int|
            0 <= i < c.acls@.len() && 0 <= k < c.acls@[i].acl.rules@.len() ==> rule_possible(
                #[trigger] c.acls@[i].acl.rules@[k],
            ),
        forall|i: int|
            0 <= i < c.peers@.len() ==> {
                let p = #[trigger] c.peers@[i];
                &&& p.md5_password matches Some(key) ==> 1 <= encode_utf8(key.text@).len() <= 80
                &&& exists|j: int| 0 <= j < c.acls@.len() && (#[trigger] c.acls@[j]).name@
                    == p.export_acl@
                &&& p.remote_asn != 0 && p.remote_asn != 23456 && p.port != 0
                &&& p.address != p.local_address && (p.address is V4) == (p.local_address is V4)
                &&& host(p.address) && host(p.local_address)
                &&& encode_utf8(p.interface@).len() <= 15 && p.interface@.len() > 0
                    && !p.interface@.contains('\0')
                &&& p.hold_time_secs != 1 && p.hold_time_secs != 2
                &&& 1 <= p.connect_timeout_secs <= 86400
                &&& 1 <= p.write_timeout_secs <= 86400
                &&& p.ipv4 || p.ipv6
                &&& p.ipv6 || p.address is V6 || p.next_hop_v6 is Some
                    || p.next_hop_v6_link_local is Some ==> c.ipv6
                &&& p.ipv4 ==> (p.nh4() matches Some(a) && host(IpAddr::V4(a)))
                &&& p.ipv6 ==> (p.nh6() matches Some(a) && host(IpAddr::V6(a)) && !(
                0xfe80_0000_0000_0000_0000_0000_0000_0000 <= a.bits
                    < 0xfec0_0000_0000_0000_0000_0000_0000_0000))
                &&& p.next_hop_v6_link_local matches Some(a)
                    ==> 0xfe80_0000_0000_0000_0000_0000_0000_0000 <= a.bits
                    < 0xfec0_0000_0000_0000_0000_0000_0000_0000
            },
        forall|i: int, j: int|
            0 <= i < j < c.peers@.len() ==> !((#[trigger] c.peers@[i]).address == (
            #[trigger] c.peers@[j]).address && c.peers@[i].local_address
                == c.peers@[j].local_address && c.peers@[i].interface@
                == c.peers@[j].interface@),
    ensures
        first_problem(c) is None,
{
    law_valid_means_in_order(c);
    assert forall|i: int, j: int|
        0 <= i < c.acls@.len() && 0 <= j < c.acls@[i].acl.rules@.len() implies crate::config::rule_ok(
        #[trigger] c.acls@[i].acl.rules@[j],
    ) by {
        assert(rule_possible(c.acls@[i].acl.rules@[j]));
    }
    assert forall|i: int| 0 <= i < c.peers@.len() implies crate::config::peer_ok(
        c,
        #[trigger] c.peers@[i],
    ) by {
        assert(crate::config::address_ok(c.peers@[i].address) == host(c.peers@[i].address));
    }
}

/// What is reported of the settings is so: each error comes with its cause.
pub proof fn law_settings_error_has_its_cause(c: Config)
    ensures
        settings_problem(c) matches Some(e) ==> match e {
            ConfigError::ManagementAddress => !c.management.listen.ip.is_loopback(),
            ConfigError::ManagementPort => c.management.listen.port == 0,
            ConfigError::LocalAsn => c.asn == 0 || c.asn == 23456,
            ConfigError::RouterId => c.router_id.bits == 0,
            ConfigError::ListenPort => c.listen_port == 0,
            ConfigError::NoPeers => c.peers@.len() == 0,
            ConfigError::Tables => c.kernel.tables@.len() == 0 || c.kernel.tables@.contains(0),
            ConfigError::ReceiveBuffer => c.kernel.receive_buffer_bytes < 65536
                || c.kernel.receive_buffer_bytes > 1073741824,
            ConfigError::RefreshInterval => c.kernel.refresh_interval_ms < 10
                || c.kernel.refresh_interval_ms > 60000,
            ConfigError::ReconcileInterval => c.kernel.reconcile_interval_secs < 1
                || c.kernel.reconcile_interval_secs > 86400,
            ConfigError::StaleTimeout => c.kernel.stale_timeout_secs < 1
                || c.kernel.stale_timeout_secs > 86400,
            ConfigError::DumpTimeout => c.kernel.dump_timeout_secs < 1
                || c.kernel.dump_timeout_secs > 86400,
            ConfigError::DumpNotShorter => c.kernel.dump_timeout_secs
                >= c.kernel.stale_timeout_secs,
            ConfigError::MaxPrefixes => c.kernel.max_prefixes == 0,
            _ => false,
        },
{
}

/// What is reported of a rule is so: host bits, or lengths that are not possible.
pub proof fn law_rule_error_has_its_cause(r: Rule, acl: usize)
    requires
        r.prefix.wf(),
    ensures
        rule_problem(r, acl) is None <==> rule_possible(r),
        rule_problem(r, acl) matches Some(e) ==> match e {
            ConfigError::AclHostBits(i) => i == acl && match r.prefix.addr {
                IpAddr::V4(a) => a.bits as int % pow2((32 - r.prefix.prefix_len) as nat) as int
                    != 0,
                IpAddr::V6(a) => a.bits as int % pow2((128 - r.prefix.prefix_len) as nat) as int
                    != 0,
            },
            ConfigError::AclRange(i) => i == acl && (r.min_length is Some || r.max_length is Some),
            _ => false,
        },
{
}

/// What is reported of a peer is so: each error comes with its cause.
pub proof fn law_peer_error_has_its_cause(c: Config, i: usize)
    requires
        i < c.peers@.len(),
    ensures
        ({
            let p = c.peers@[i as int];
            peer_problem(c, i) matches Some(e) ==> match e {
                ConfigError::Md5Length(k) => k == i && (p.md5_password matches Some(key) && !(1
                    <= encode_utf8(key.text@).len() <= 80)),
                ConfigError::MissingAcl(k) => k == i && forall|j: int|
                    0 <= j < c.acls@.len() ==> (#[trigger] c.acls@[j]).name@ != p.export_acl@,
                ConfigError::PeerAsnOrPort => p.remote_asn == 0 || p.remote_asn == 23456 || p.port
                    == 0,
                ConfigError::AddressPair => p.address == p.local_address || (p.address is V4) != (
                p.local_address is V4),
                ConfigError::PeerAddress => !host(p.address),
                ConfigError::LocalAddress => !host(p.local_address),
                ConfigError::Interface => p.interface@.len() == 0 || encode_utf8(
                    p.interface@,
                ).len() > 15 || p.interface@.contains('\0'),
                ConfigError::DuplicateEndpoint => exists|j: int|
                    0 <= j < i && (#[trigger] c.peers@[j]).address == p.address
                        && c.peers@[j].local_address == p.local_address && c.peers@[j].interface@
                        == p.interface@,
                ConfigError::HoldTime => p.hold_time_secs == 1 || p.hold_time_secs == 2,
                ConfigError::ConnectTimeout(k) => k == i && !(1 <= p.connect_timeout_secs
                    <= 86400),
                ConfigError::WriteTimeout(k) => k == i && !(1 <= p.write_timeout_secs <= 86400),
                ConfigError::NoFamily => !p.ipv4 && !p.ipv6,
                ConfigError::Ipv6Disabled => !c.ipv6 && (p.ipv6 || p.address is V6
                    || p.next_hop_v6 is Some || p.next_hop_v6_link_local is Some),
                ConfigError::NextHopV4 => p.ipv4 && !(p.nh4() matches Some(a) && host(
                    IpAddr::V4(a),
                )),
                ConfigError::NextHopV6 => p.ipv6 && !(p.nh6() matches Some(a) && host(
                    IpAddr::V6(a),
                ) && !a.is_unicast_link_local()),
                ConfigError::LinkLocal => p.next_hop_v6_link_local matches Some(a)
                    && !a.is_unicast_link_local(),
                _ => false,
            }
        }),
{
    let p = c.peers@[i as int];
    assert(crate::config::address_ok(p.address) == host(p.address));
    assert(crate::config::address_ok(p.local_address) == host(p.local_address));
    if exists|j: int| 0 <= j < i && crate::config::same_endpoint(#[trigger] c.peers@[j], p) {
        let j = choose|j: int|
            0 <= j < i && crate::config::same_endpoint(#[trigger] c.peers@[j], p);
        assert(c.peers@[j].address == p.address);
    }
}

/// Errors are found in order: the first of the settings, else that of the first ACL
/// that has one, else that of the first peer that has one.
pub proof fn law_first_error_is_reported(c: Config, i: int)
    ensures
        settings_problem(c) is Some ==> first_problem(c) == settings_problem(c),
        settings_problem(c) is None && 0 <= i < c.acls@.len() && acl_problem(
            c.acls@[i],
            i as usize,
        ) is Some && (forall|j: int|
            0 <= j < i ==> acl_problem(#[trigger] c.acls@[j], j as usize) is None)
            ==> first_problem(c) == acl_problem(c.acls@[i], i as usize),
        settings_problem(c) is None && (forall|j: int|
            0 <= j < c.acls@.len() ==> acl_problem(#[trigger] c.acls@[j], j as usize) is None) && 0
            <= i < c.peers@.len() && peer_problem(c, i as usize) is Some && (forall|j: int|
            0 <= j < i ==> peer_problem(c, #[trigger] (j as usize)) is None) ==> first_problem(c)
            == peer_problem(c, i as usize),
{
    if 0 <= i < c.acls@.len() && acl_problem(c.acls@[i], i as usize) is Some && (forall|j: int|
        0 <= j < i ==> acl_problem(#[trigger] c.acls@[j], j as usize) is None) {
        lemma_acls_before(c.acls@, i as nat);
        lemma_acls_problem_stays(c.acls@, (i + 1) as nat, c.acls@.len());
    }
    if (forall|j: int|
        0 <= j < c.acls@.len() ==> acl_problem(#[trigger] c.acls@[j], j as usize) is None) && 0 <= i
        < c.peers@.len() && peer_problem(c, i as usize) is Some && (forall|j: int|
        0 <= j < i ==> peer_problem(c, #[trigger] (j as usize)) is None) {
        lemma_acls_before(c.acls@, c.acls@.len());
        lemma_peers_before(c, i as nat);
        lemma_peers_problem_stays(c, (i + 1) as nat, c.peers@.len());
    }
}

proof fn lemma_acls_before(acls: Seq<NamedAcl>, k: nat)
    requires
        k <= acls.len(),
        forall|j: int| 0 <= j < k ==> acl_problem(#[trigger] acls[j], j as usize) is None,
    ensures
        acls_problem(acls, k) is None,
    decreases k,
{
    if k > 0 {
        lemma_acls_before(acls, (k - 1) as nat);
        assert(acl_problem(acls[k - 1], (k - 1) as usize) is None);
    }
}

proof fn lemma_peers_before(c: Config, k: nat)
    requires
        k <= c.peers@.len(),
        forall|j: int| 0 <= j < k ==> peer_problem(c, #[trigger] (j as usize)) is None,
    ensures
        peers_problem(c, k) is None,
    decreases k,
{
    if k > 0 {
        lemma_peers_before(c, (k - 1) as nat);
        assert(peer_problem(c, (k - 1) as usize) is None);
    }
}

/// Lines and columns are counted from one: a line feed starts the next line at its first
/// column, and any other octet moves on by one.
pub proof fn law_lines_and_columns_are_counted(s: Seq<u8>, b: u8)
    ensures
        line_ends(Seq::empty()) == 0,
        column_after(Seq::empty()) == 1,
        b == 10 ==> line_ends(s.push(b)) == line_ends(s) + 1 && column_after(s.push(b)) == 1,
        b != 10 ==> line_ends(s.push(b)) == line_ends(s) && column_after(s.push(b))
            == column_after(s) + 1,
{
    assert(s.push(b).drop_last() =~= s);
}

/// A key fits where it has from one to eighty octets.
pub proof fn law_key_fits(key: Md5Key)
    ensures
        key.fits() <==> 1 <= encode_utf8(key.text@).len() <= 80,
{
}

/// What holds of a peer that does not say otherwise.
pub proof fn law_peers_have_defaults(p: u16, h: u16, c: u64, w: u64, v4: bool)
    requires
        call_ensures(port, (), p),
        call_ensures(hold, (), h),
        call_ensures(connect_timeout, (), c),
        call_ensures(write_timeout, (), w),
        call_ensures(yes, (), v4),
    ensures
        p == 179 && h == 90 && c == 10 && w == 10 && v4,
{
}

/// The first rule that matches a prefix decides on it, and where none does it is denied.
pub proof fn law_first_matching_rule_decides(acl: &Acl, p: &IpNet, r: bool, i: int)
    requires
        call_ensures(Acl::permits, (acl, p), r),
        0 <= i <= acl.rules@.len(),
        forall|j: int| 0 <= j < i ==> !(#[trigger] acl.rules@[j]).matches(*p),
        i < acl.rules@.len() ==> acl.rules@[i].matches(*p),
    ensures
        i < acl.rules@.len() ==> (r <==> acl.rules@[i].action is Permit),
        i == acl.rules@.len() ==> !r,
{
    if i < acl.rules@.len() {
        law_first_match_decides(*acl, *p, i);
    } else {
        law_no_match_denies(*acl, *p);
    }
}

/// A configuration is valid exactly where nothing is wrong with it; else the first thing
/// that is wrong is reported.
pub proof fn law_configuration_is_judged(c: &Config, r: Result<(), ConfigError>)
    requires
        call_ensures(Config::validate, (c,), r),
    ensures
        r is Ok <==> first_problem(*c) is None,
        r matches Err(e) ==> first_problem(*c) == Some(e),
{
}

/// An ACL is found by its name, the first of that name where there are several.
pub proof fn law_acl_is_found_by_name(c: &Config, name: &str, r: Option<usize>, i: int)
    requires
        call_ensures(Config::find_acl, (c, name), r),
        0 <= i < c.acls@.len(),
        c.acls@[i].name@ == name@,
    ensures
        r matches Some(j) && j <= i && c.acls@[j as int].name@ == name@,
{
}

/// A next hop and a host address are judged by what they hold, and a key is shown to
/// nobody.
pub proof fn law_addresses_are_judged(
    p: &Peer,
    hop4: Option<Ipv4Addr>,
    hop6: Option<Ipv6Addr>,
    a: Ipv4Addr,
    b: Ipv6Addr,
    v4: bool,
    v6: bool,
    id: bool,
    key: &Md5Key,
    fits: bool,
    octets: &[u8],
    shown: &'static str,
)
    requires
        call_ensures(Peer::nh4, (p,), hop4),
        call_ensures(Peer::nh6, (p,), hop6),
        call_ensures(valid_v4, (a,), v4),
        call_ensures(valid_v6, (b,), v6),
        call_ensures(valid_router_id, (a,), id),
        call_ensures(Md5Key::fits, (key,), fits),
        call_ensures(Md5Key::as_bytes, (key,), octets),
        call_ensures(Md5Key::shown, (key,), shown),
    ensures
        p.next_hop_v4 is Some ==> hop4 == p.next_hop_v4,
        p.next_hop_v6 is Some ==> hop6 == p.next_hop_v6,
        p.next_hop_v4 is None ==> (hop4 is Some <==> p.local_address is V4) && (hop4 matches Some(x)
            ==> p.local_address == IpAddr::V4(x)),
        p.next_hop_v6 is None ==> (hop6 is Some <==> p.local_address is V6) && (hop6 matches Some(x)
            ==> p.local_address == IpAddr::V6(x)),
        v4 <==> 0 < a.bits < 0xe000_0000 || 0xf000_0000 <= a.bits < 0xffff_ffff,
        v6 <==> 0 < b.bits < 0xff00_0000_0000_0000_0000_0000_0000_0000,
        id <==> a.bits > 0,
        fits <==> 1 <= octets@.len() <= 80,
        octets@ == encode_utf8(key.text@),
        shown@ == "<redacted>"@,
{
}

/// A syntax error is told by its line and column, and by nothing of the text.
pub proof fn law_syntax_error_is_told_by_its_place(text: &str, offset: Option<usize>, r: String)
    requires
        call_ensures(syntax_message, (text, offset), r),
    ensures
        offset is None ==> r@ == syntax_text(1, 1),
        offset matches Some(n) ==> n <= encode_utf8(text@).len() ==> r@ == syntax_text(
            line_ends(encode_utf8(text@).take(n as int)) + 1,
            column_after(encode_utf8(text@).take(n as int)),
        ),
        offset matches Some(n) ==> n > encode_utf8(text@).len() ==> r@ == syntax_text(
            line_ends(encode_utf8(text@)) + 1,
            column_after(encode_utf8(text@)),
        ),
{
    let b = encode_utf8(text@);
    assert(b.take(0) =~= Seq::<u8>::empty());
    assert(b.take(b.len() as int) =~= b);
}

/// An error that is about one ACL or one peer names it: the ACL by its name, the peer by
/// its address. A timeout that is out of bounds is named with its bounds.
pub proof fn law_errors_name_their_subject(e: &ConfigError, c: &Config, r: String)
    requires
        call_ensures(ConfigError::message, (e, c), r),
    ensures
        ({
            let bounds = " must be 1..="@ + decimal(86400) + " seconds"@;
            let peer = |i: usize| "peer "@ + addr_text(c.peers@[i as int].address);
            let acl = |i: usize| "ACL "@ + c.acls@[i as int].name@;
            &&& *e matches ConfigError::AclHostBits(i) ==> r@ == acl(i)
                + ": prefix must have no host bits"@
            &&& *e matches ConfigError::AclRange(i) ==> r@ == acl(i)
                + ": invalid prefix length range"@
            &&& *e matches ConfigError::MissingAcl(i) ==> r@ == peer(i) + ": mandatory export ACL "@
                + quoted(c.peers@[i as int].export_acl@) + " does not exist"@
            &&& *e matches ConfigError::ConnectTimeout(i) ==> r@ == peer(i) + ": "@
                + "connect_timeout_secs"@ + bounds
            &&& *e matches ConfigError::WriteTimeout(i) ==> r@ == peer(i) + ": "@
                + "write_timeout_secs"@ + bounds
            &&& *e matches ConfigError::Md5Length(i) ==> r@ == peer(i)
                + ": md5_password must contain 1..=80 UTF-8 bytes; omit it to disable authentication"@
            &&& *e is ReconcileInterval ==> r@ == "kernel "@ + "reconcile_interval_secs"@ + bounds
            &&& *e is StaleTimeout ==> r@ == "kernel "@ + "stale_timeout_secs"@ + bounds
            &&& *e is DumpTimeout ==> r@ == "kernel "@ + "dump_timeout_secs"@ + bounds
        }),
{
}

} // verus!
