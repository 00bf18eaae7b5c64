//! IP addresses as plain numbers.
use vstd::prelude::*;

use crate::bytes::{append_be, be};

verus! {

/// An IPv4 address, as the 32-bit number that its octets spell.
#[derive(Clone, Copy, Debug, PartialEq, Eq, Structural)]
pub struct Ipv4Addr {
    pub bits: u32,
}

/// An IPv6 address, as the 128-bit number that its octets spell.
#[derive(Clone, Copy, Debug, PartialEq, Eq, Structural)]
pub struct Ipv6Addr {
    pub bits: u128,
}

/// An address of either family.
#[derive(Clone, Copy, Debug, PartialEq, Eq, Structural)]
pub enum IpAddr {
    V4(Ipv4Addr),
    V6(Ipv6Addr),
}

/// A transport address. `scope_id` is an interface index, or zero.
#[derive(Clone, Copy, Debug, PartialEq, Eq, Structural)]
pub struct SocketAddr {
    pub ip: IpAddr,
    pub port: u16,
    pub scope_id: u32,
}

impl Ipv4Addr {
    /// The address of four octets.
    pub fn new(a: u8, b: u8, c: u8, d: u8) -> (r: Ipv4Addr)
        ensures
            r.bits == a as nat * 0x100_0000 + b as nat * 0x1_0000 + c as nat * 0x100 + d as nat,
            r.octets() == seq![a, b, c, d],
    {
        let bits: u32 = a as u32 * 0x100_0000 + b as u32 * 0x1_0000 + c as u32 * 0x100 + d as u32;
        proof {
            let s = seq![a, b, c, d];
            crate::bytes::lemma_be_of_be_value(s);
            crate::bytes::lemma_be_value4(s);
        }
        Ipv4Addr { bits }
    }

    /// The four octets, in the order in which they are written.
    pub open spec fn octets(self) -> Seq<u8> {
        be(self.bits as nat, 4)
    }

    /// Append the four octets.
    pub fn append_octets(self, out: &mut Vec<u8>)
        ensures
            final(out)@ == old(out)@ + self.octets(),
    {
        append_be(out, self.bits as u128, 4);
    }

    /// Whether this is `0.0.0.0`.
    pub open spec fn spec_is_unspecified(self) -> bool {
        self.bits == 0
    }

    #[verifier::when_used_as_spec(spec_is_unspecified)]
    pub fn is_unspecified(self) -> (r: bool)
        ensures
            r == self.is_unspecified(),
    {
        self.bits == 0
    }

    /// Whether the first octet lies in 224..=239.
    pub open spec fn spec_is_multicast(self) -> bool {
        224 <= self.bits / 0x100_0000 <= 239
    }

    #[verifier::when_used_as_spec(spec_is_multicast)]
    pub fn is_multicast(self) -> (r: bool)
        ensures
            r == self.is_multicast(),
    {
        let first: u32 = self.bits / 0x100_0000;
        224 <= first && first <= 239
    }

    /// Whether this is `255.255.255.255`.
    pub open spec fn spec_is_broadcast(self) -> bool {
        self.bits == 0xffff_ffff
    }

    #[verifier::when_used_as_spec(spec_is_broadcast)]
    pub fn is_broadcast(self) -> (r: bool)
        ensures
            r == self.is_broadcast(),
    {
        self.bits == 0xffff_ffff
    }
}

impl Ipv6Addr {
    /// The sixteen octets, in the order in which they are written.
    pub open spec fn octets(self) -> Seq<u8> {
        be(self.bits as nat, 16)
    }

    /// Append the sixteen octets.
    pub fn append_octets(self, out: &mut Vec<u8>)
        ensures
            final(out)@ == old(out)@ + self.octets(),
    {
        append_be(out, self.bits, 16);
    }

    /// Whether this is `::`.
    pub open spec fn spec_is_unspecified(self) -> bool {
        self.bits == 0
    }

    #[verifier::when_used_as_spec(spec_is_unspecified)]
    pub fn is_unspecified(self) -> (r: bool)
        ensures
            r == self.is_unspecified(),
    {
        self.bits == 0
    }

    /// Whether the first octet is `ff`.
    pub open spec fn spec_is_multicast(self) -> bool {
        self.bits / 0x100_0000_0000_0000_0000_0000_0000_0000 == 0xff
    }

    #[verifier::when_used_as_spec(spec_is_multicast)]
    pub fn is_multicast(self) -> (r: bool)
        ensures
            r == self.is_multicast(),
    {
        self.bits / 0x100_0000_0000_0000_0000_0000_0000_0000 == 0xff
    }

    /// Whether the address lies in `fe80::/10`.
    pub open spec fn spec_is_unicast_link_local(self) -> bool {
        0xfe80_0000_0000_0000_0000_0000_0000_0000 <= self.bits
            <= 0xfebf_ffff_ffff_ffff_ffff_ffff_ffff_ffff
    }

    #[verifier::when_used_as_spec(spec_is_unicast_link_local)]
    pub fn is_unicast_link_local(self) -> (r: bool)
        ensures
            r == self.is_unicast_link_local(),
    {
        0xfe80_0000_0000_0000_0000_0000_0000_0000 <= self.bits && self.bits
            <= 0xfebf_ffff_ffff_ffff_ffff_ffff_ffff_ffff
    }
}

impl IpAddr {
    pub open spec fn spec_is_ipv4(self) -> bool {
        self is V4
    }

    #[verifier::when_used_as_spec(spec_is_ipv4)]
    pub fn is_ipv4(self) -> (r: bool)
        ensures
            r == self.is_ipv4(),
    {
        match self {
            IpAddr::V4(_) => true,
            IpAddr::V6(_) => false,
        }
    }

    pub open spec fn spec_is_ipv6(self) -> bool {
        self is V6
    }

    #[verifier::when_used_as_spec(spec_is_ipv6)]
    pub fn is_ipv6(self) -> (r: bool)
        ensures
            r == self.is_ipv6(),
    {
        !self.is_ipv4()
    }

    /// Whether the address lies in `127.0.0.0/8` or is `::1`.
    pub open spec fn spec_is_loopback(self) -> bool {
        match self {
            IpAddr::V4(a) => a.bits / 0x100_0000 == 127,
            IpAddr::V6(a) => a.bits == 1,
        }
    }

    #[verifier::when_used_as_spec(spec_is_loopback)]
    pub fn is_loopback(self) -> (r: bool)
        ensures
            r == self.is_loopback(),
    {
        match self {
            IpAddr::V4(a) => a.bits / 0x100_0000 == 127,
            IpAddr::V6(a) => a.bits == 1,
        }
    }

    /// The address as a number.
    pub open spec fn value(self) -> nat {
        match self {
            IpAddr::V4(a) => a.bits as nat,
            IpAddr::V6(a) => a.bits as nat,
        }
    }

    /// The number of bits in an address of this family.
    pub open spec fn width(self) -> nat {
        match self {
            IpAddr::V4(_) => 32,
            IpAddr::V6(_) => 128,
        }
    }
}

/// A socket address, scoped to an interface where the address is link-local IPv6.
pub fn endpoint(ip: IpAddr, port: u16, index: u32) -> (r: SocketAddr)
    ensures
        r.ip == ip,
        r.port == port,
        r.scope_id == match ip {
            IpAddr::V6(a) => if a.is_unicast_link_local() {
                index
            } else {
                0
            },
            IpAddr::V4(_) => 0,
        },
{
    let scope_id: u32 = match ip {
        IpAddr::V6(a) => if a.is_unicast_link_local() {
            index
        } else {
            0
        },
        IpAddr::V4(_) => 0,
    };
    SocketAddr { ip, port, scope_id }
}

/// Which IPv4 addresses are special, by the range that they lie in.
pub proof fn law_special_ipv4_addresses(
    a: Ipv4Addr,
    unspecified: bool,
    multicast: bool,
    broadcast: bool,
    loopback: bool,
)
    requires
        call_ensures(Ipv4Addr::is_unspecified, (a,), unspecified),
        call_ensures(Ipv4Addr::is_multicast, (a,), multicast),
        call_ensures(Ipv4Addr::is_broadcast, (a,), broadcast),
        call_ensures(IpAddr::is_loopback, (IpAddr::V4(a),), loopback),
    ensures
        unspecified <==> a.bits < 1,
        multicast <==> 0xe000_0000 <= a.bits < 0xf000_0000,
        broadcast <==> a.bits + 1 > u32::MAX,
        loopback <==> 0x7f00_0000 <= a.bits < 0x8000_0000,
{
}

/// Which IPv6 addresses are special, by the range that they lie in.
pub proof fn law_special_ipv6_addresses(
    a: Ipv6Addr,
    unspecified: bool,
    multicast: bool,
    link_local: bool,
    loopback: bool,
)
    requires
        call_ensures(Ipv6Addr::is_unspecified, (a,), unspecified),
        call_ensures(Ipv6Addr::is_multicast, (a,), multicast),
        call_ensures(Ipv6Addr::is_unicast_link_local, (a,), link_local),
        call_ensures(IpAddr::is_loopback, (IpAddr::V6(a),), loopback),
    ensures
        unspecified <==> a.bits < 1,
        multicast <==> a.bits >= 0xff00_0000_0000_0000_0000_0000_0000_0000,
        link_local <==> 0xfe80_0000_0000_0000_0000_0000_0000_0000 <= a.bits
            < 0xfec0_0000_0000_0000_0000_0000_0000_0000,
        loopback <==> a.bits == 1,
{
}

/// Every address is of one family, and its octets are those of its number, the highest
/// first.
pub proof fn law_address_has_a_family_and_octets(
    x: IpAddr,
    v4: bool,
    v6: bool,
    a: Ipv4Addr,
    b: Ipv6Addr,
    four: &mut Vec<u8>,
    sixteen: &mut Vec<u8>,
)
    requires
        call_ensures(IpAddr::is_ipv4, (x,), v4),
        call_ensures(IpAddr::is_ipv6, (x,), v6),
        call_ensures(Ipv4Addr::append_octets, (a, four), ()),
        call_ensures(Ipv6Addr::append_octets, (b, sixteen), ()),
    ensures
        v4 != v6,
        v4 <==> x is V4,
        final(four)@ == old(four)@ + be(a.bits as nat, 4),
        final(sixteen)@ == old(sixteen)@ + be(b.bits as nat, 16),
        x is V4 ==> x.width() == 32,
        x is V6 ==> x.width() == 128,
        x matches IpAddr::V4(y) ==> x.value() == y.bits,
        x matches IpAddr::V6(y) ==> x.value() == y.bits,
{
}

/// A socket address is that of its IP address and port, and names an interface exactly
/// where the address is link-local.
pub proof fn law_endpoint_is_scoped(ip: IpAddr, port: u16, index: u32, r: SocketAddr)
    requires
        call_ensures(endpoint, (ip, port, index), r),
    ensures
        r.ip == ip && r.port == port,
        ip is V4 ==> r.scope_id == 0,
        ip matches IpAddr::V6(a) ==> (if 0xfe80_0000_0000_0000_0000_0000_0000_0000 <= a.bits
            < 0xfec0_0000_0000_0000_0000_0000_0000_0000 {
            r.scope_id == index
        } else {
            r.scope_id == 0
        }),
{
}

} // verus!
