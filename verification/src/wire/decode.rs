//! Decoding of the prefixes that an UPDATE announces.
use vstd::prelude::*;

use crate::addr::{IpAddr, Ipv4Addr, Ipv6Addr};
use crate::bytes::{be_value, u16b};
use crate::bytes::{lemma_be_of_be_value, lemma_pow256_monotone, lemma_pow256_small};
use crate::net::IpNet;
use crate::wire::encode::octets_for;
use crate::wire::validate::{attributes_len, header_len, value_len, withdrawn_len};

verus! {

/// `s` followed by zeros, `k` bytes in all.
pub open spec fn padded(s: Seq<u8>, k: nat) -> Seq<u8> {
    Seq::new(
        k,
        |i: int|
            if i < s.len() {
                s[i]
            } else {
                0u8
            },
    )
}

/// The prefix of this length whose address starts with these octets.
pub open spec fn prefix_of(octets: Seq<u8>, bits: u8, v6: bool) -> IpNet {
    let addr = if v6 {
        IpAddr::V6(Ipv6Addr { bits: be_value(padded(octets, 16)) as u128 })
    } else {
        IpAddr::V4(Ipv4Addr { bits: be_value(padded(octets, 4)) as u32 })
    };
    (IpNet { addr, prefix_len: bits }).spec_trunc()
}

/// The packed prefixes of `b`, up to the first that does not fit.
pub open spec fn unpacked(b: Seq<u8>, v6: bool) -> Seq<IpNet>
    decreases b.len(),
{
    let size = octets_for(b[0]) as int;
    if b.len() == 0 || b[0] > (if v6 {
        128int
    } else {
        32int
    }) || size + 1 > b.len() {
        Seq::empty()
    } else {
        seq![prefix_of(b.subrange(1, 1 + size), b[0], v6)] + unpacked(b.skip(1 + size), v6)
    }
}

/// The prefixes that one attribute announces: those of an MP_REACH attribute
/// for IPv4 or IPv6 unicast.
pub open spec fn announced_by(kind: u8, data: Seq<u8>) -> Seq<IpNet> {
    let afi = be_value(data.take(2));
    if kind == 14 && data.len() >= 5 && data[2] == 1 && 5 + data[3] <= data.len() && (afi == 1
        || afi == 2) {
        unpacked(data.skip(5 + data[3] as int), afi == 2)
    } else {
        Seq::empty()
    }
}

/// The prefixes that a list of attributes announces, up to a broken boundary.
pub open spec fn announced_in(b: Seq<u8>) -> Seq<IpNet>
    decreases b.len(),
{
    let h = header_len(b[0]);
    let end = h + value_len(b);
    if b.len() < 3 || b.len() < h || end > b.len() {
        Seq::empty()
    } else {
        announced_by(b[1], b.subrange(h, end)) + announced_in(b.skip(end))
    }
}

/// The prefixes that an UPDATE body announces: those after the attributes, then
/// those inside them.
pub open spec fn announced_prefixes(b: Seq<u8>) -> Seq<IpNet> {
    let w = withdrawn_len(b);
    let a = attributes_len(b);
    if b.len() < 4 || w + 4 > b.len() || w + a + 4 > b.len() {
        Seq::empty()
    } else {
        unpacked(b.skip(4 + w + a), false) + announced_in(b.subrange(4 + w, 4 + w + a))
    }
}

/// The number that octets spell, with zeros after them to fill `k` bytes.
fn padded_value(octets: &[u8], k: usize) -> (r: u128)
    requires
        k <= 16,
    ensures
        r == be_value(padded(octets@, k as nat)),
        k == 4 ==> r <= 0xffff_ffff,
{
    let mut value: u128 = 0;
    let mut i: usize = 0;
    let ghost all = padded(octets@, k as nat);
    while i < k
        invariant
            i <= k <= 16,
            all == padded(octets@, k as nat),
            value == be_value(all.take(i as int)),
        decreases k - i,
    {
        let byte: u8 = if i < octets.len() {
            octets[i]
        } else {
            0
        };
        proof {
            let next = all.take(i + 1);
            assert(next.drop_last() =~= all.take(i as int));
            assert(next.last() == byte);
            lemma_be_of_be_value(next);
            lemma_pow256_monotone((i + 1) as nat, 16);
            lemma_pow256_small();
        }
        value = value * 256 + byte as u128;
        i += 1;
    }
    proof {
        assert(all.take(k as int) =~= all);
        lemma_be_of_be_value(all);
        lemma_pow256_small();
    }
    value
}

/// Append the packed prefixes of `b`, up to the first that does not fit.
fn unpack(b: &[u8], v6: bool, out: &mut Vec<IpNet>)
    ensures
        final(out)@ == old(out)@ + unpacked(b@, v6),
{
    let width: u8 = if v6 {
        128
    } else {
        32
    };
    let mut rest = b;
    let ghost start = out@;
    while rest.len() > 0
        invariant
            width == (if v6 {
                128u8
            } else {
                32u8
            }),
            start == old(out)@,
            start + unpacked(b@, v6) == out@ + unpacked(rest@, v6),
        decreases rest@.len(),
    {
        let bits: u8 = rest[0];
        let size: usize = octets_for(bits);
        if bits > width || size + 1 > rest.len() {
            assert(out@ =~= out@ + unpacked(rest@, v6));
            return;
        }
        let octets: &[u8] = &rest[1..1 + size];
        let addr = if v6 {
            IpAddr::V6(Ipv6Addr { bits: padded_value(octets, 16) })
        } else {
            IpAddr::V4(Ipv4Addr { bits: padded_value(octets, 4) as u32 })
        };
        let net = IpNet { addr, prefix_len: bits }.trunc();
        assert(net == prefix_of(octets@, bits, v6));
        let ghost before = out@;
        out.push(net);
        assert(rest@.skip(1 + size) =~= rest@.subrange(1 + size, rest@.len() as int));
        assert(before + unpacked(rest@, v6) =~= out@ + unpacked(rest@.skip(1 + size), v6));
        rest = &rest[1 + size..rest.len()];
    }
    assert(out@ =~= out@ + unpacked(rest@, v6));
}

/// Append the prefixes that an attribute announces.
fn unpack_attribute(kind: u8, data: &[u8], out: &mut Vec<IpNet>)
    ensures
        final(out)@ == old(out)@ + announced_by(kind, data@),
{
    if kind == 14 && data.len() >= 5 && data[2] == 1 {
        let start: usize = 5 + data[3] as usize;
        let afi: u16 = u16b(data);
        assert(data@.take(2) =~= data@.subrange(0, 2));
        if start <= data.len() && (afi == 1 || afi == 2) {
            assert(data@.skip(start as int) =~= data@.subrange(start as int, data@.len() as int));
            unpack(&data[start..data.len()], afi == 2, out);
            return;
        }
    }
    assert(out@ =~= old(out)@ + announced_by(kind, data@));
}

/// Decode supported reachable NLRI for recovery diagnostics after validation.
/// Stop at malformed attribute boundaries; never interpret unknown address families.
pub fn update_prefixes(b: &[u8]) -> (r: Vec<IpNet>)
    ensures
        r@ == announced_prefixes(b@),
{
    let mut out: Vec<IpNet> = Vec::new();
    if b.len() < 4 {
        return out;
    }
    let w: usize = u16b(b) as usize;
    assert(b@.take(2) =~= b@.subrange(0, 2));
    if w + 4 > b.len() {
        return out;
    }
    assert(b@.subrange(2 + w, 4 + w).subrange(0, 2) =~= b@.subrange(2 + w, 4 + w));
    let a: usize = u16b(&b[2 + w..4 + w]) as usize;
    if w + a + 4 > b.len() {
        return out;
    }
    let tail: &[u8] = &b[4 + w + a..b.len()];
    assert(b@.skip(4 + w + a) =~= tail@);
    unpack(tail, false, &mut out);
    let attrs: &[u8] = &b[4 + w..4 + w + a];
    let ghost trailing = unpacked(tail@, false);
    assert(out@ =~= trailing);
    let mut rest = attrs;
    while rest.len() >= 3
        invariant
            announced_prefixes(b@) == trailing + announced_in(attrs@),
            trailing + announced_in(attrs@) == out@ + announced_in(rest@),
        decreases rest@.len(),
    {
        let h: usize = if rest[0] / 16 % 2 == 1 {
            4
        } else {
            3
        };
        if rest.len() < h {
            assert(out@ =~= out@ + announced_in(rest@));
            return out;
        }
        let l: usize = if h == 4 {
            assert(rest@.subrange(2, 4).subrange(0, 2) =~= rest@.subrange(2, 4));
            u16b(&rest[2..4]) as usize
        } else {
            rest[2] as usize
        };
        let end: usize = h + l;
        if end > rest.len() {
            assert(out@ =~= out@ + announced_in(rest@));
            return out;
        }
        let ghost before = out@;
        unpack_attribute(rest[1], &rest[h..end], &mut out);
        assert(rest@.skip(end as int) =~= rest@.subrange(end as int, rest@.len() as int));
        assert(before + announced_in(rest@) =~= out@ + announced_in(rest@.skip(end as int)));
        rest = &rest[end..rest.len()];
    }
    assert(out@ =~= out@ + announced_in(rest@));
    out
}

} // verus!
