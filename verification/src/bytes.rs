//! Numbers as byte strings.
//!
//! BGP writes numbers most significant byte first. Netlink writes them in the
//! byte order of the machine, which [`ByteOrder`] carries as a value.
use vstd::prelude::*;

verus! {

/// The `k` bytes of `v`, most significant first.
pub open spec fn be(v: nat, k: nat) -> Seq<u8>
    decreases k,
{
    if k == 0 {
        Seq::empty()
    } else {
        be(v / 256, (k - 1) as nat).push((v % 256) as u8)
    }
}

/// The number that `s` spells, most significant byte first.
pub open spec fn be_value(s: Seq<u8>) -> nat
    decreases s.len(),
{
    if s.len() == 0 {
        0
    } else {
        be_value(s.drop_last()) * 256 + s.last() as nat
    }
}

/// 256 to the power `k`.
pub open spec fn pow256(k: nat) -> nat
    decreases k,
{
    if k == 0 {
        1
    } else {
        256 * pow256((k - 1) as nat)
    }
}

pub proof fn lemma_be_len(v: nat, k: nat)
    ensures
        be(v, k).len() == k,
    decreases k,
{
    if k > 0 {
        lemma_be_len(v / 256, (k - 1) as nat);
    }
}

/// The powers that two, four and sixteen bytes reach.
pub proof fn lemma_pow256_small()
    ensures
        pow256(2) == 0x1_0000,
        pow256(4) == 0x1_0000_0000,
        pow256(16) == 0x1_0000_0000_0000_0000_0000_0000_0000_0000,
{
    reveal_with_fuel(pow256, 17);
}

pub proof fn lemma_pow256_pos(k: nat)
    ensures
        pow256(k) > 0,
    decreases k,
{
    if k > 0 {
        lemma_pow256_pos((k - 1) as nat);
    }
}

pub proof fn lemma_pow256_monotone(a: nat, b: nat)
    requires
        a <= b,
    ensures
        pow256(a) <= pow256(b),
    decreases b,
{
    if a < b {
        lemma_pow256_monotone(a, (b - 1) as nat);
    }
}

/// Reading back the bytes of a number that fits gives the number.
pub proof fn lemma_be_value_of_be(v: nat, k: nat)
    requires
        v < pow256(k),
    ensures
        be_value(be(v, k)) == v,
    decreases k,
{
    if k > 0 {
        lemma_be_value_of_be(v / 256, (k - 1) as nat);
        assert(be(v, k).drop_last() =~= be(v / 256, (k - 1) as nat));
    }
}

/// Writing the number that some bytes spell gives those bytes.
pub proof fn lemma_be_of_be_value(s: Seq<u8>)
    ensures
        be(be_value(s), s.len()) =~= s,
        be_value(s) < pow256(s.len()),
    decreases s.len(),
{
    if s.len() > 0 {
        lemma_be_of_be_value(s.drop_last());
        let h = be_value(s.drop_last());
        assert(be_value(s) / 256 == h);
        assert(be_value(s) % 256 == s.last() as nat);
        assert(s.drop_last().push(s.last()) =~= s);
    }
}

/// The bytes of a number split where the number does.
pub proof fn lemma_be_split(v: nat, a: nat, b: nat)
    ensures
        be(v, a + b) =~= be(v / pow256(b), a) + be(v % pow256(b), b),
    decreases b,
{
    lemma_pow256_pos(b);
    if b == 0 {
        assert(v / 1 == v);
        assert(be(v % pow256(b), 0) =~= Seq::<u8>::empty());
    } else {
        let c = (b - 1) as nat;
        lemma_pow256_pos(c);
        lemma_be_split(v / 256, a, c);
        let p = pow256(c);
        assert((v / 256) / p == v / (256 * p)) by {
            vstd::arithmetic::div_mod::lemma_div_denominator(v as int, 256, p as int);
        }
        let m = v % (256 * p);
        assert(m / 256 == (v / 256) % p && m % 256 == v % 256) by {
            vstd::arithmetic::div_mod::lemma_breakdown(v as int, 256, p as int);
            assert(m == 256 * ((v / 256) % p) + v % 256);
        }
        assert(be(v, a + b) == be(v / 256, a + c).push((v % 256) as u8));
        assert(be(m, b) == be(m / 256, c).push((m % 256) as u8));
    }
}

/// The bytes of zero are zero.
pub proof fn lemma_be_zero(k: nat)
    ensures
        be(0, k) =~= Seq::new(k, |i: int| 0u8),
    decreases k,
{
    if k > 0 {
        lemma_be_zero((k - 1) as nat);
    }
}

pub proof fn lemma_be2(v: nat)
    ensures
        be(v, 2) =~= seq![(v / 256 % 256) as u8, (v % 256) as u8],
        pow256(2) == 65536,
{
    reveal_with_fuel(be, 3);
    reveal_with_fuel(pow256, 3);
}

pub proof fn lemma_be4(v: nat)
    ensures
        be(v, 4) =~= seq![
            (v / 16777216 % 256) as u8,
            (v / 65536 % 256) as u8,
            (v / 256 % 256) as u8,
            (v % 256) as u8,
        ],
        pow256(4) == 4294967296,
{
    reveal_with_fuel(be, 5);
    reveal_with_fuel(pow256, 5);
}

pub proof fn lemma_be_value2(s: Seq<u8>)
    requires
        s.len() == 2,
    ensures
        be_value(s) == s[0] as nat * 256 + s[1] as nat,
{
    reveal_with_fuel(be_value, 3);
}

pub proof fn lemma_be_value4(s: Seq<u8>)
    requires
        s.len() == 4,
    ensures
        be_value(s) == s[0] as nat * 16777216 + s[1] as nat * 65536 + s[2] as nat * 256
            + s[3] as nat,
{
    reveal_with_fuel(be_value, 5);
}

/// Append a slice.
pub fn append(out: &mut Vec<u8>, s: &[u8])
    ensures
        final(out)@ == old(out)@ + s@,
{
    out.extend_from_slice(s);
    assert(out@ =~= old(out)@ + s@);
}

/// Append the `k` low bytes of `v`, most significant first.
pub fn append_be(out: &mut Vec<u8>, v: u128, k: u8)
    ensures
        final(out)@ == old(out)@ + be(v as nat, k as nat),
    decreases k,
{
    if k > 0 {
        append_be(out, v / 256, k - 1);
        out.push((v % 256) as u8);
    }
    assert(out@ =~= old(out)@ + be(v as nat, k as nat));
}

/// The 16-bit number at the start of `b`, most significant byte first.
pub fn u16b(b: &[u8]) -> (r: u16)
    requires
        b@.len() >= 2,
    ensures
        r == be_value(b@.subrange(0, 2)),
{
    proof {
        lemma_be_value2(b@.subrange(0, 2));
    }
    b[0] as u16 * 256 + b[1] as u16
}

/// The 32-bit number at the start of `b`, most significant byte first.
pub fn u32b(b: &[u8]) -> (r: u32)
    requires
        b@.len() >= 4,
    ensures
        r == be_value(b@.subrange(0, 4)),
{
    proof {
        lemma_be_value4(b@.subrange(0, 4));
    }
    b[0] as u32 * 16777216 + b[1] as u32 * 65536 + b[2] as u32 * 256 + b[3] as u32
}

/// The number that `b` spells, most significant byte first.
pub fn value_of(b: &[u8]) -> (r: u128)
    requires
        b@.len() <= 16,
    ensures
        r == be_value(b@),
{
    let mut r: u128 = 0;
    let mut i: usize = 0;
    while i < b.len()
        invariant
            i <= b@.len() <= 16,
            r == be_value(b@.take(i as int)),
        decreases b@.len() - i,
    {
        proof {
            let next = b@.take(i + 1);
            assert(next.drop_last() =~= b@.take(i as int));
            lemma_be_of_be_value(next);
            lemma_pow256_monotone(next.len(), 16);
            lemma_pow256_small();
        }
        r = r * 256 + b[i] as u128;
        i += 1;
    }
    assert(b@.take(i as int) =~= b@);
    r
}

/// Whether two byte strings are the same.
pub fn same(a: &[u8], b: &[u8]) -> (r: bool)
    ensures
        r == (a@ == b@),
{
    if a.len() != b.len() {
        return false;
    }
    let mut i: usize = 0;
    while i < a.len()
        invariant
            i <= a@.len(),
            a@.len() == b@.len(),
            forall|j: int| 0 <= j < i ==> a@[j] == b@[j],
        decreases a@.len() - i,
    {
        if a[i] != b[i] {
            return false;
        }
        i += 1;
    }
    assert(a@ =~= b@);
    true
}

/// How a machine lays out the bytes of a number.
#[derive(Clone, Copy, Debug, PartialEq, Eq, Structural)]
pub enum ByteOrder {
    /// Least significant byte first.
    Little,
    /// Most significant byte first.
    Big,
}

impl ByteOrder {
    /// Turn bytes of this order into big-endian bytes, or back.
    pub open spec fn arrange(self, s: Seq<u8>) -> Seq<u8> {
        match self {
            ByteOrder::Little => s.reverse(),
            ByteOrder::Big => s,
        }
    }

    /// The bytes of `v` in this order.
    pub open spec fn bytes(self, v: nat, k: nat) -> Seq<u8> {
        self.arrange(be(v, k))
    }

    /// The number that `s` spells in this order.
    pub open spec fn value(self, s: Seq<u8>) -> nat {
        be_value(self.arrange(s))
    }

    /// The 16-bit number at the start of `b`.
    pub fn u16n(self, b: &[u8]) -> (r: u16)
        requires
            b@.len() >= 2,
        ensures
            r == self.value(b@.subrange(0, 2)),
    {
        proof {
            lemma_be_value2(self.arrange(b@.subrange(0, 2)));
        }
        match self {
            ByteOrder::Little => b[1] as u16 * 256 + b[0] as u16,
            ByteOrder::Big => b[0] as u16 * 256 + b[1] as u16,
        }
    }

    /// The 32-bit number at the start of `b`.
    pub fn u32n(self, b: &[u8]) -> (r: u32)
        requires
            b@.len() >= 4,
        ensures
            r == self.value(b@.subrange(0, 4)),
    {
        proof {
            lemma_be_value4(self.arrange(b@.subrange(0, 4)));
        }
        match self {
            ByteOrder::Little => b[3] as u32 * 16777216 + b[2] as u32 * 65536 + b[1] as u32 * 256
                + b[0] as u32,
            ByteOrder::Big => b[0] as u32 * 16777216 + b[1] as u32 * 65536 + b[2] as u32 * 256
                + b[3] as u32,
        }
    }

    /// Append the 16-bit number `v`.
    pub fn append16(self, out: &mut Vec<u8>, v: u16)
        ensures
            final(out)@ == old(out)@ + self.bytes(v as nat, 2),
    {
        proof {
            lemma_be2(v as nat);
        }
        let hi = (v / 256) as u8;
        let lo = (v % 256) as u8;
        match self {
            ByteOrder::Little => {
                out.push(lo);
                out.push(hi);
            },
            ByteOrder::Big => {
                out.push(hi);
                out.push(lo);
            },
        }
        assert(out@ =~= old(out)@ + self.bytes(v as nat, 2));
    }

    /// Append the 32-bit number `v`.
    pub fn append32(self, out: &mut Vec<u8>, v: u32)
        ensures
            final(out)@ == old(out)@ + self.bytes(v as nat, 4),
    {
        proof {
            lemma_be4(v as nat);
        }
        let a = (v / 16777216) as u8;
        let b = (v / 65536 % 256) as u8;
        let c = (v / 256 % 256) as u8;
        let d = (v % 256) as u8;
        match self {
            ByteOrder::Little => {
                out.push(d);
                out.push(c);
                out.push(b);
                out.push(a);
            },
            ByteOrder::Big => {
                out.push(a);
                out.push(b);
                out.push(c);
                out.push(d);
            },
        }
        assert(out@ =~= old(out)@ + self.bytes(v as nat, 4));
    }

    /// Numbers survive being written and read in one order.
    pub proof fn lemma_roundtrip(self, v: nat, k: nat)
        requires
            v < pow256(k),
        ensures
            self.value(self.bytes(v, k)) == v,
            self.bytes(v, k).len() == k,
    {
        lemma_be_len(v, k);
        lemma_be_value_of_be(v, k);
        assert(self.arrange(self.arrange(be(v, k))) =~= be(v, k));
    }
}

/// Numbers of two and of four octets, least significant octet first on one machine and
/// last on the other.
pub proof fn law_byte_orders(s: Seq<u8>)
    ensures
        s.len() == 2 ==> ByteOrder::Little.value(s) == s[0] + 256 * s[1],
        s.len() == 2 ==> ByteOrder::Big.value(s) == 256 * s[0] + s[1],
        s.len() == 4 ==> ByteOrder::Little.value(s) == s[0] + 256 * (s[1] + 256 * (s[2] + 256
            * s[3])),
        s.len() == 4 ==> ByteOrder::Big.value(s) == s[3] + 256 * (s[2] + 256 * (s[1] + 256
            * s[0])),
{
    if s.len() == 2 {
        lemma_be_value2(s);
        lemma_be_value2(s.reverse());
    }
    if s.len() == 4 {
        lemma_be_value4(s);
        lemma_be_value4(s.reverse());
    }
}

/// The octets of a number that fits spell it, and there are as many as asked for.
pub proof fn law_number_is_read_back(v: nat, k: nat, order: ByteOrder)
    requires
        v < pow256(k),
    ensures
        be(v, k).len() == k,
        be_value(be(v, k)) == v,
        order.value(order.bytes(v, k)) == v,
{
    lemma_be_len(v, k);
    lemma_be_value_of_be(v, k);
    order.lemma_roundtrip(v, k);
}

/// Octets are put behind those that are there, as they are or as a number of so many, and
/// compared one by one.
pub proof fn law_octets_are_appended(
    out: &mut Vec<u8>,
    s: &[u8],
    other: &mut Vec<u8>,
    v: u128,
    k: u8,
    t: &[u8],
    equal: bool,
)
    requires
        call_ensures(append, (out, s), ()),
        call_ensures(append_be, (other, v, k), ()),
        call_ensures(same, (s, t), equal),
        v < pow256(k as nat),
    ensures
        final(out)@ == old(out)@ + s@,
        final(other)@.len() == old(other)@.len() + k,
        final(other)@.take(old(other)@.len() as int) == old(other)@,
        be_value(final(other)@.skip(old(other)@.len() as int)) == v,
        equal <==> s@ == t@,
{
    lemma_be_len(v as nat, k as nat);
    lemma_be_value_of_be(v as nat, k as nat);
    assert(final(other)@.take(old(other)@.len() as int) =~= old(other)@);
    assert(final(other)@.skip(old(other)@.len() as int) =~= be(v as nat, k as nat));
}

/// Numbers are read from the start of what is given, the highest octet first.
pub proof fn law_numbers_are_read_from_the_start(b: &[u8], two: u16, four: u32, all: u128)
    requires
        4 <= b@.len() <= 16,
        call_ensures(u16b, (b,), two),
        call_ensures(u32b, (b,), four),
        call_ensures(value_of, (b,), all),
    ensures
        two == b@[0] * 256 + b@[1],
        four == b@[3] + 256 * (b@[2] + 256 * (b@[1] + 256 * b@[0])),
        all == be_value(b@),
        b@.len() == 4 ==> all == four,
{
    lemma_be_value2(b@.subrange(0, 2));
    lemma_be_value4(b@.subrange(0, 4));
    if b@.len() == 4 {
        assert(b@.subrange(0, 4) =~= b@);
    }
}

/// A machine's numbers are read and written in its own order of octets.
pub proof fn law_machine_numbers(
    order: ByteOrder,
    b: &[u8],
    two: u16,
    four: u32,
    out: &mut Vec<u8>,
    v: u16,
    other: &mut Vec<u8>,
    w: u32,
)
    requires
        b@.len() >= 4,
        call_ensures(ByteOrder::u16n, (order, b), two),
        call_ensures(ByteOrder::u32n, (order, b), four),
        call_ensures(ByteOrder::append16, (order, out, v), ()),
        call_ensures(ByteOrder::append32, (order, other, w), ()),
    ensures
        order is Little ==> two == b@[0] + 256 * b@[1] && four == b@[0] + 256 * (b@[1] + 256 * (
        b@[2] + 256 * b@[3])),
        order is Big ==> two == b@[1] + 256 * b@[0] && four == b@[3] + 256 * (b@[2] + 256 * (b@[1]
            + 256 * b@[0])),
        final(out)@ == old(out)@ + order.bytes(v as nat, 2),
        final(other)@ == old(other)@ + order.bytes(w as nat, 4),
{
    law_byte_orders(b@.subrange(0, 2));
    law_byte_orders(b@.subrange(0, 4));
}

} // verus!
