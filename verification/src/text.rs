//! Text as it is shown to people.
use vstd::prelude::*;

use crate::addr::{IpAddr, Ipv4Addr, Ipv6Addr};
use crate::bytes::lemma_be4;
use crate::net::IpNet;

verus! {

/// The character of a decimal digit.
pub open spec fn digit(d: nat) -> char {
    (48 + d) as char
}

/// A number in decimal, without leading zeros.
pub open spec fn decimal(n: nat) -> Seq<char>
    decreases n,
{
    if n < 10 {
        seq![digit(n)]
    } else {
        decimal(n / 10).push(digit(n % 10))
    }
}

/// `String::push` appends one character.
pub assume_specification[ String::push ](s: &mut String, c: char)
    ensures
        final(s)@ == old(s)@.push(c),
;

/// Append `n` in decimal.
pub fn append_decimal(s: &mut String, n: u64)
    ensures
        final(s)@ == old(s)@ + decimal(n as nat),
    decreases n,
{
    if n >= 10 {
        append_decimal(s, n / 10);
    }
    s.push((48 + (n % 10) as u8) as char);
    assert(s@ =~= old(s)@ + decimal(n as nat));
}

/// `true` or `false`.
pub open spec fn bool_text(b: bool) -> Seq<char> {
    if b {
        "true"@
    } else {
        "false"@
    }
}

/// Append `true` or `false`.
pub fn append_bool(s: &mut String, b: bool)
    ensures
        final(s)@ == old(s)@ + bool_text(b),
{
    if b {
        s.append("true");
    } else {
        s.append("false");
    }
}

/// Numbers in decimal, a comma and a space between them.
pub open spec fn listed(v: Seq<u32>) -> Seq<char>
    decreases v.len(),
{
    if v.len() == 0 {
        Seq::empty()
    } else if v.len() == 1 {
        decimal(v[0] as nat)
    } else {
        listed(v.drop_last()) + ", "@ + decimal(v.last() as nat)
    }
}

/// Append a list of numbers in square brackets.
pub fn append_list(s: &mut String, v: &Vec<u32>)
    ensures
        final(s)@ == old(s)@ + "["@ + listed(v@) + "]"@,
{
    s.append("[");
    let ghost start = s@;
    let mut i: usize = 0;
    while i < v.len()
        invariant
            i <= v@.len(),
            s@ == start + listed(v@.take(i as int)),
        decreases v@.len() - i,
    {
        if i > 0 {
            s.append(", ");
        }
        append_decimal(s, v[i] as u64);
        i += 1;
        let ghost now = v@.take(i as int);
        assert(now.drop_last() =~= v@.take(i - 1));
        assert(s@ =~= start + listed(now));
    }
    assert(v@.take(i as int) =~= v@);
    s.append("]");
    assert(s@ =~= old(s)@ + "["@ + listed(v@) + "]"@);
}

/// Four octets in decimal with dots between them.
pub open spec fn v4_text(a: Ipv4Addr) -> Seq<char> {
    decimal((a.bits / 0x100_0000) as nat) + "."@ + decimal((a.bits / 0x1_0000 % 0x100) as nat)
        + "."@ + decimal((a.bits / 0x100 % 0x100) as nat) + "."@ + decimal(
        (a.bits % 0x100) as nat,
    )
}

/// Append an IPv4 address.
pub fn append_v4(s: &mut String, a: Ipv4Addr)
    ensures
        final(s)@ == old(s)@ + v4_text(a),
{
    append_decimal(s, (a.bits / 0x100_0000) as u64);
    s.append(".");
    append_decimal(s, (a.bits / 0x1_0000 % 0x100) as u64);
    s.append(".");
    append_decimal(s, (a.bits / 0x100 % 0x100) as u64);
    s.append(".");
    append_decimal(s, (a.bits % 0x100) as u64);
    assert(s@ =~= old(s)@ + v4_text(a));
}

/// The compressed text of the IPv6 address that is this number.
pub uninterp spec fn v6_text(bits: u128) -> Seq<char>;

/// Renders `std`'s IPv6 address type, which writes the groups in hexadecimal and
/// shortens the longest run of zeros. The address comes from
/// `ipnet::Ipv6Net::addr`.
#[verifier::external_body]
fn render_v6(bits: u128) -> (r: String)
    ensures
        r@ == v6_text(bits),
{
    format!("{}", ipnet::Ipv6Net::new(bits.into(), 128).unwrap().addr())
}

/// An address of either family.
pub open spec fn addr_text(a: IpAddr) -> Seq<char> {
    match a {
        IpAddr::V4(a) => v4_text(a),
        IpAddr::V6(a) => v6_text(a.bits),
    }
}

/// Append an address of either family.
pub fn append_addr(s: &mut String, a: IpAddr)
    ensures
        final(s)@ == old(s)@ + addr_text(a),
{
    match a {
        IpAddr::V4(a) => append_v4(s, a),
        IpAddr::V6(a) => {
            let text = render_v6(a.bits);
            s.append(text.as_str());
        },
    }
}

/// A prefix: the address, a slash and the length.
pub open spec fn net_text(n: IpNet) -> Seq<char> {
    addr_text(n.addr) + "/"@ + decimal(n.prefix_len as nat)
}

/// Append a prefix.
pub fn append_net(s: &mut String, n: &IpNet)
    ensures
        final(s)@ == old(s)@ + net_text(*n),
{
    append_addr(s, n.addr);
    s.append("/");
    append_decimal(s, n.prefix_len as u64);
    assert(s@ =~= old(s)@ + net_text(*n));
}

/// The family, address and length that a text spells, if it spells a prefix.
pub uninterp spec fn net_of_text(text: Seq<char>) -> Option<(bool, u128, u8)>;

/// Calls the `FromStr` implementation of `ipnet::IpNet`, which reads an address,
/// a slash and a length, and yields no length beyond the address width.
#[verifier::external_body]
fn read_net(text: &str) -> (r: Option<(bool, u128, u8)>)
    ensures
        r == net_of_text(text@),
        r matches Some((v6, bits, len)) ==> if v6 {
            len <= 128
        } else {
            len <= 32 && bits <= 0xffff_ffff
        },
{
    match text.parse::<ipnet::IpNet>() {
        Ok(ipnet::IpNet::V4(n)) => Some((false, u32::from(n.addr()).into(), n.prefix_len())),
        Ok(ipnet::IpNet::V6(n)) => Some((true, n.addr().into(), n.prefix_len())),
        Err(_) => None,
    }
}

/// The prefix of a family, an address and a length.
pub open spec fn net_of_parts(v6: bool, bits: u128, len: u8) -> IpNet {
    IpNet {
        addr: if v6 {
            IpAddr::V6(Ipv6Addr { bits })
        } else {
            IpAddr::V4(Ipv4Addr { bits: bits as u32 })
        },
        prefix_len: len,
    }
}

/// The prefix that a text spells, if it spells one.
pub open spec fn net_from_text(text: Seq<char>) -> Option<IpNet> {
    match net_of_text(text) {
        Some((v6, bits, len)) => Some(net_of_parts(v6, bits, len)),
        None => None,
    }
}

/// The prefix of a family, an address and a length, as a reader yields them.
pub fn net_from_parts(parts: Option<(bool, u128, u8)>) -> (r: Option<IpNet>)
    ensures
        r == match parts {
            Some((v6, bits, len)) => Some(net_of_parts(v6, bits, len)),
            None => None,
        },
{
    match parts {
        Some((v6, bits, len)) => Some(
            IpNet {
                addr: if v6 {
                    IpAddr::V6(Ipv6Addr { bits })
                } else {
                    IpAddr::V4(Ipv4Addr { bits: bits as u32 })
                },
                prefix_len: len,
            },
        ),
        None => None,
    }
}

/// Read a prefix such as `10.0.0.0/8`.
pub fn parse_net(text: &str) -> (r: Option<IpNet>)
    ensures
        r == net_from_text(text@),
        r matches Some(n) ==> n.wf(),
{
    net_from_parts(read_net(text))
}

/// The text in double quotes, with escapes.
pub uninterp spec fn quoted(text: Seq<char>) -> Seq<char>;

/// Renders the `Debug` form of a `str`, which quotes it and escapes what would
/// not print.
#[verifier::external_body]
pub(crate) fn quote(text: &str) -> (r: String)
    ensures
        r@ == quoted(text@),
{
    format!("{:?}", text)
}

/// Whether a text holds a character.
pub fn holds(text: &str, c: char) -> (r: bool)
    ensures
        r == text@.contains(c),
{
    let mut found: bool = false;
    for x in it: text.chars()
        invariant
            it.seq() == text@,
            found == text@.take(it.index() as int).contains(c),
    {
        proof {
            let now = text@.take(it.index() + 1);
            let before = text@.take(it.index() as int);
            assert(now =~= before.push(x));
            if before.contains(c) {
                let i = choose|i: int| 0 <= i < before.len() && before[i] == c;
                assert(now[i] == c);
            }
            if x == c {
                assert(now[it.index() as int] == c);
            }
            if now.contains(c) {
                let i = choose|i: int| 0 <= i < now.len() && now[i] == c;
                if i < before.len() {
                    assert(before[i] == c);
                }
            }
        }
        if x == c {
            found = true;
        }
    }
    assert(text@.take(text@.len() as int) =~= text@);
    found
}

/// The number that decimal digits spell.
pub open spec fn spelled_number(s: Seq<char>) -> nat
    decreases s.len(),
{
    if s.len() == 0 {
        0
    } else {
        spelled_number(s.drop_last()) * 10 + (s.last() as nat - '0' as nat) as nat
    }
}

/// A number is written in decimal digits that spell it, without a zero before them.
pub proof fn law_decimal_is_read_back(n: nat)
    ensures
        spelled_number(decimal(n)) == n,
        decimal(n).len() > 0,
        forall|i: int| 0 <= i < decimal(n).len() ==> '0' <= #[trigger] decimal(n)[i] <= '9',
        n > 0 ==> decimal(n)[0] != '0',
    decreases n,
{
    assert(digit(n % 10) as nat == 48 + n % 10);
    if n >= 10 {
        law_decimal_is_read_back(n / 10);
        let s = decimal(n / 10);
        assert(decimal(n).drop_last() =~= s);
        assert forall|i: int| 0 <= i < decimal(n).len() implies '0' <= #[trigger] decimal(n)[i]
            <= '9' by {
            if i < s.len() {
                assert(decimal(n)[i] == s[i]);
            }
        }
        assert(decimal(n)[0] == s[0]);
    } else {
        assert(decimal(n).drop_last() =~= Seq::<char>::empty());
        assert(spelled_number(Seq::empty()) == 0);
    }
}

/// An IPv4 address is written as its four octets in decimal, with dots between them.
pub proof fn law_v4_text_is_dotted(a: Ipv4Addr)
    ensures
        a.octets().len() == 4,
        v4_text(a) == decimal(a.octets()[0] as nat) + "."@ + decimal(a.octets()[1] as nat) + "."@
            + decimal(a.octets()[2] as nat) + "."@ + decimal(a.octets()[3] as nat),
{
    lemma_be4(a.bits as nat);
}

/// A prefix is written as its address, a slash and its length; numbers in a list stand
/// one after the other with a comma and a space between them.
pub proof fn law_texts_are_put_together(n: IpNet, v: Seq<u32>, x: u32)
    ensures
        net_text(n) == addr_text(n.addr) + "/"@ + decimal(n.prefix_len as nat),
        v.len() > 0 ==> listed(v.push(x)) == listed(v) + ", "@ + decimal(x as nat),
        listed(seq![x]) == decimal(x as nat),
        listed(Seq::empty()) == Seq::<char>::empty(),
{
    assert(v.push(x).drop_last() =~= v);
}

/// What the outside parser found is the prefix that it is: of IPv6 where it says so,
/// else of IPv4, with the bits and the length that it gives.
pub proof fn law_parts_are_the_prefix(v6: bool, bits: u128, len: u8)
    requires
        !v6 ==> bits <= 0xffff_ffff,
    ensures
        net_of_parts(v6, bits, len).prefix_len == len,
        match net_of_parts(v6, bits, len).addr {
            IpAddr::V4(a) => !v6 && a.bits == bits,
            IpAddr::V6(a) => v6 && a.bits == bits,
        },
{
}

/// Texts are put behind what is there: a number by its digits, a list in brackets, an
/// IPv4 address by its octets.
pub proof fn law_texts_are_appended(
    s: &mut String,
    n: u64,
    t: &mut String,
    b: bool,
    l: &mut String,
    v: &Vec<u32>,
    d: &mut String,
    a: Ipv4Addr,
    p: &mut String,
    net: &IpNet,
)
    requires
        call_ensures(append_decimal, (s, n), ()),
        call_ensures(append_bool, (t, b), ()),
        call_ensures(append_list, (l, v), ()),
        call_ensures(append_v4, (d, a), ()),
        call_ensures(append_net, (p, net), ()),
    ensures
        final(s)@ == old(s)@ + decimal(n as nat),
        b ==> final(t)@ == old(t)@ + "true"@,
        !b ==> final(t)@ == old(t)@ + "false"@,
        final(l)@ == old(l)@ + "["@ + listed(v@) + "]"@,
        final(d)@ == old(d)@ + (decimal(a.octets()[0] as nat) + "."@ + decimal(
            a.octets()[1] as nat,
        ) + "."@ + decimal(a.octets()[2] as nat) + "."@ + decimal(a.octets()[3] as nat)),
        final(p)@ == old(p)@ + (addr_text(net.addr) + "/"@ + decimal(net.prefix_len as nat)),
{
    law_v4_text_is_dotted(a);
}

/// A prefix that was read is the one that its parts are, and there is none where nothing
/// was read. A text holds a character where some place of it does.
pub proof fn law_prefix_is_its_parts(
    parts: Option<(bool, u128, u8)>,
    r: Option<IpNet>,
    text: &str,
    c: char,
    there: bool,
)
    requires
        call_ensures(net_from_parts, (parts,), r),
        call_ensures(holds, (text, c), there),
    ensures
        r is Some <==> parts is Some,
        parts matches Some((v6, bits, len)) ==> (r matches Some(p) && p.prefix_len == len && (v6
            <==> p.addr is V6) && (p.addr matches IpAddr::V6(a) ==> a.bits == bits) && (bits
            <= 0xffff_ffff ==> (p.addr matches IpAddr::V4(a) ==> a.bits == bits))),
        there <==> exists|i: int| 0 <= i < text@.len() && text@[i] == c,
{
}

} // verus!
