//! Route messages.
use vstd::prelude::*;

use crate::addr::{IpAddr, Ipv4Addr, Ipv6Addr};
use crate::bytes::be_value;
use crate::bytes::lemma_be_of_be_value;
use crate::bytes::lemma_pow256_small;
use crate::bytes::{value_of, ByteOrder};
use crate::net::IpNet;
use crate::netlink::message::align;
use crate::netlink::message::zeros;
use crate::netlink::message::{
    native, padding, NetlinkError, AF_INET, AF_INET6, RTA_DST, RTA_TABLE,
};

verus! {

/// What the attributes of a route say: its table, and its destination if given.
#[verifier::ext_equal]
pub struct Found {
    pub table: u32,
    pub dst: Option<Seq<u8>>,
}

/// What one attribute of this type and value changes. Two bits of the type are flags.
pub open spec fn attribute(
    order: ByteOrder,
    kind: u16,
    value: Seq<u8>,
    width: nat,
    f: Found,
) -> Result<Found, NetlinkError> {
    if kind % 0x4000 == RTA_DST {
        if value.len() == width {
            Ok(Found { dst: Some(value), ..f })
        } else {
            Err(NetlinkError::Destination)
        }
    } else if kind % 0x4000 == RTA_TABLE {
        if value.len() == 4 {
            Ok(Found { table: order.value(value) as u32, ..f })
        } else {
            Err(NetlinkError::Table)
        }
    } else {
        Ok(f)
    }
}

/// What a list of attributes says, later ones over earlier ones.
pub open spec fn attributes(order: ByteOrder, b: Seq<u8>, width: nat, f: Found) -> Result<
    Found,
    NetlinkError,
>
    decreases b.len(),
{
    if b.len() == 0 {
        Ok(f)
    } else if b.len() < 4 {
        Err(NetlinkError::ShortAttribute)
    } else {
        let n = order.value(b.subrange(0, 2));
        if n < 4 || n > b.len() {
            Err(NetlinkError::AttributeLength)
        } else {
            match attribute(
                order,
                order.value(b.subrange(2, 4)) as u16,
                b.subrange(4, n as int),
                width,
                f,
            ) {
                Err(e) => Err(e),
                Ok(g) => if n == b.len() {
                    Ok(g)
                } else if align(n) > b.len() {
                    Err(NetlinkError::AttributePadding)
                } else {
                    attributes(order, b.skip(align(n) as int), width, g)
                },
            }
        }
    }
}

/// An address of this many octets.
pub open spec fn address(width: nat, octets: Seq<u8>) -> IpAddr {
    if width == 4 {
        IpAddr::V4(Ipv4Addr { bits: be_value(octets) as u32 })
    } else {
        IpAddr::V6(Ipv6Addr { bits: be_value(octets) as u128 })
    }
}

/// The octets of an address of this family.
pub open spec fn family_width(family: u8) -> nat {
    if family == AF_INET {
        4
    } else {
        16
    }
}

/// Whether a route header is of an ordinary, destination-only unicast route: not
/// local, broadcast, blackhole, prohibit, unreachable, cloned or source-specific.
pub open spec fn ordinary(order: ByteOrder, p: Seq<u8>) -> bool {
    &&& p[0] == AF_INET || p[0] == AF_INET6
    &&& p[7] == 1
    &&& p[2] == 0
    &&& order.value(p.subrange(8, 12)) / 0x200 % 2 == 0
}

/// The prefix that a route message announces in one of the selected tables, if
/// it announces one that counts.
pub open spec fn route_of(order: ByteOrder, p: Seq<u8>, tables: Seq<u32>) -> Result<
    Option<IpNet>,
    NetlinkError,
> {
    if p.len() < 12 {
        Err(NetlinkError::ShortRoute)
    } else if !ordinary(order, p) {
        Ok(None)
    } else if p[1] > family_width(p[0]) * 8 {
        Err(NetlinkError::PrefixLength)
    } else {
        match attributes(
            order,
            p.skip(12),
            family_width(p[0]),
            Found { table: p[4] as u32, dst: None },
        ) {
            Err(e) => Err(e),
            Ok(f) => if p[1] != 0 && f.dst is None {
                Err(NetlinkError::MissingDestination)
            } else if !tables.contains(f.table) {
                Ok(None)
            } else {
                let octets = match f.dst {
                    Some(d) => d,
                    None => zeros(family_width(p[0])),
                };
                Ok(
                    Some(
                        (IpNet {
                            addr: address(family_width(p[0]), octets),
                            prefix_len: p[1],
                        }).spec_trunc(),
                    ),
                )
            },
        }
    }
}

fn selected(tables: &[u32], table: u32) -> (r: bool)
    ensures
        r == tables@.contains(table),
{
    let mut i: usize = 0;
    while i < tables.len()
        invariant
            i <= tables@.len(),
            forall|j: int| 0 <= j < i ==> tables@[j] != table,
        decreases tables@.len() - i,
    {
        if tables[i] == table {
            return true;
        }
        i += 1;
    }
    false
}

/// The prefix of a route message whose numbers have the given byte order.
pub fn route_in(order: ByteOrder, payload: &[u8], tables: &[u32]) -> (r: Result<
    Option<IpNet>,
    NetlinkError,
>)
    ensures
        r == route_of(order, payload@, tables@),
{
    if payload.len() < 12 {
        return Err(NetlinkError::ShortRoute);
    }
    let family: u8 = payload[0];
    let flags_at = &payload[8..payload.len()];
    assert(flags_at@.subrange(0, 4) =~= payload@.subrange(8, 12));
    if family != AF_INET && family != AF_INET6 {
        return Ok(None);
    }
    if payload[7] != 1 || payload[2] != 0 || order.u32n(flags_at) / 0x200 % 2 != 0 {
        return Ok(None);
    }
    let width: usize = if family == AF_INET {
        4
    } else {
        16
    };
    if payload[1] as usize > width * 8 {
        return Err(NetlinkError::PrefixLength);
    }
    let mut table: u32 = payload[4] as u32;
    let mut dst: Option<&[u8]> = None;
    let mut rest = &payload[12..payload.len()];
    let ghost start = Found { table: payload@[4] as u32, dst: None };
    let ghost whole = attributes(order, payload@.skip(12), width as nat, start);
    assert(rest@ =~= payload@.skip(12));
    while rest.len() > 0
        invariant
            12 <= payload@.len(),
            ordinary(order, payload@),
            payload@[1] <= width * 8,
            width == family_width(payload@[0]),
            start == (Found { table: payload@[4] as u32, dst: None }),
            whole == attributes(order, payload@.skip(12), width as nat, start),
            whole == attributes(order, rest@, width as nat, Found { table, dst: seen(dst) }),
            dst matches Some(d) ==> d@.len() == width,
        decreases rest@.len(),
    {
        let ghost now = rest@;
        if rest.len() < 4 {
            return Err(NetlinkError::ShortAttribute);
        }
        let n: usize = order.u16n(rest) as usize;
        if n < 4 || n > rest.len() {
            return Err(NetlinkError::AttributeLength);
        }
        let kind_at = &rest[2..rest.len()];
        assert(kind_at@.subrange(0, 2) =~= rest@.subrange(2, 4));
        let kind: u16 = order.u16n(kind_at) % 0x4000;
        let value = &rest[4..n];
        if kind == RTA_DST {
            if value.len() != width {
                return Err(NetlinkError::Destination);
            }
            dst = Some(value);
        } else if kind == RTA_TABLE {
            if value.len() != 4 {
                return Err(NetlinkError::Table);
            }
            table = order.u32n(value);
            assert(value@.subrange(0, 4) =~= value@);
        }
        let pad: usize = padding(n);
        if n == rest.len() {
            rest = &rest[n..n];
        } else if pad > rest.len() - n {
            return Err(NetlinkError::AttributePadding);
        } else {
            rest = &rest[n + pad..rest.len()];
            assert(rest@ =~= now.skip(align(n as nat) as int));
        }
    }
    if payload[1] != 0 && dst.is_none() {
        return Err(NetlinkError::MissingDestination);
    }
    if !selected(tables, table) {
        return Ok(None);
    }
    let bits: u128 = match dst {
        Some(d) => value_of(d),
        None => 0,
    };
    proof {
        lemma_zeros_value(width as nat);
        lemma_pow256_small();
        if let Some(d) = dst {
            lemma_be_of_be_value(d@);
        }
    }
    let addr = if width == 4 {
        IpAddr::V4(Ipv4Addr { bits: bits as u32 })
    } else {
        IpAddr::V6(Ipv6Addr { bits })
    };
    let net = IpNet { addr, prefix_len: payload[1] };
    Ok(Some(net.trunc()))
}

/// What is known of a destination.
spec fn seen(dst: Option<&[u8]>) -> Option<Seq<u8>> {
    match dst {
        Some(d) => Some(d@),
        None => None,
    }
}

proof fn lemma_zeros_value(n: nat)
    ensures
        be_value(zeros(n)) == 0,
    decreases n,
{
    if n > 0 {
        assert(zeros(n).drop_last() =~= zeros((n - 1) as nat));
        lemma_zeros_value((n - 1) as nat);
    }
}

/// The prefix of a route message of this machine.
pub fn route(payload: &[u8], tables: &[u32]) -> (r: Result<Option<IpNet>, NetlinkError>)
    ensures
        exists|order: ByteOrder| r == route_of(order, payload@, tables@),
{
    route_in(native(), payload, tables)
}

} // verus!
