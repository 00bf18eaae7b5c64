//! What messages are made of, as lists: the parts that laws speak of.
use vstd::prelude::*;

use crate::bytes::{be, be_value, lemma_be_len, lemma_be_of_be_value};
use crate::wire::validate::{packed_ok, segments_ok};

verus! {

/// A stretch of an AS path: its type and its ASNs.
pub struct Segment {
    pub kind: u8,
    pub asns: Seq<nat>,
}

/// Numbers of this many octets, one after the other.
pub open spec fn numbers(v: Seq<nat>, width: nat) -> Seq<u8>
    decreases v.len(),
{
    if v.len() == 0 {
        Seq::empty()
    } else {
        be(v[0], width) + numbers(v.skip(1), width)
    }
}

/// A path as it is written: the type, the count and the ASNs of each stretch.
pub open spec fn path_octets(s: Seq<Segment>, width: nat) -> Seq<u8>
    decreases s.len(),
{
    if s.len() == 0 {
        Seq::empty()
    } else {
        seq![s[0].kind, s[0].asns.len() as u8] + numbers(s[0].asns, width) + path_octets(
            s.skip(1),
            width,
        )
    }
}

/// Every stretch is of one of the four known types and holds between one and 255 ASNs.
pub open spec fn path_sound(s: Seq<Segment>) -> bool {
    forall|i: int|
        0 <= i < s.len() ==> 1 <= (#[trigger] s[i]).kind <= 4 && 1 <= s[i].asns.len() <= 255
}

proof fn lemma_numbers_len(v: Seq<nat>, width: nat)
    ensures
        numbers(v, width).len() == width * v.len(),
    decreases v.len(),
{
    if v.len() > 0 {
        lemma_numbers_len(v.skip(1), width);
        lemma_be_len(v[0], width);
        assert(width * v.len() == width + width * (v.len() - 1)) by (nonlinear_arith)
            requires
                v.len() > 0,
        ;
    } else {
        assert(width * v.len() == 0) by (nonlinear_arith)
            requires
                v.len() == 0,
        ;
    }
}

/// The numbers that octets spell.
spec fn numbers_in(b: Seq<u8>, width: nat, count: nat) -> Seq<nat>
    decreases count,
{
    if count == 0 {
        Seq::empty()
    } else {
        seq![be_value(b.take(width as int))] + numbers_in(
            b.skip(width as int),
            width,
            (count - 1) as nat,
        )
    }
}

proof fn lemma_numbers_in(b: Seq<u8>, width: nat, count: nat)
    requires
        b.len() == width * count,
    ensures
        numbers(numbers_in(b, width, count), width) == b,
        numbers_in(b, width, count).len() == count,
    decreases count,
{
    let v = numbers_in(b, width, count);
    if count > 0 {
        assert(width * count == width + width * (count - 1)) by (nonlinear_arith)
            requires
                count > 0,
        ;
        assert(width * (count - 1) >= 0) by (nonlinear_arith)
            requires
                count > 0,
        ;
        let rest = b.skip(width as int);
        lemma_numbers_in(rest, width, (count - 1) as nat);
        lemma_be_of_be_value(b.take(width as int));
        assert(v.skip(1) =~= numbers_in(rest, width, (count - 1) as nat));
        assert(numbers(v, width) =~= b);
    } else {
        assert(width * count == 0) by (nonlinear_arith)
            requires
                count == 0,
        ;
        assert(b =~= Seq::<u8>::empty());
    }
}

/// The stretches that octets spell.
spec fn path_in(b: Seq<u8>, width: nat) -> Seq<Segment>
    decreases b.len(),
{
    if b.len() < 2 || 2 + width * b[1] > b.len() {
        Seq::empty()
    } else {
        let end = (2 + width * b[1]) as int;
        seq![
            Segment { kind: b[0], asns: numbers_in(b.subrange(2, end), width, b[1] as nat) },
        ] + path_in(b.skip(end), width)
    }
}

/// An AS path is acceptable exactly where it is a list of stretches of the four known
/// types, each of at least one and at most 255 ASNs of the width agreed on, whatever
/// the ASNs are and however many stretches there are.
pub proof fn law_acceptable_path_is_a_list_of_segments(b: Seq<u8>, width: nat)
    requires
        width == 2 || width == 4,
    ensures
        segments_ok(b, width) <==> exists|s: Seq<Segment>|
            path_sound(s) && #[trigger] path_octets(s, width) == b,
{
    if segments_ok(b, width) {
        lemma_path_in(b, width);
        assert(path_octets(path_in(b, width), width) == b);
    }
    if exists|s: Seq<Segment>| path_sound(s) && #[trigger] path_octets(s, width) == b {
        let s = choose|s: Seq<Segment>| path_sound(s) && #[trigger] path_octets(s, width) == b;
        lemma_path_octets(s, width);
    }
}

proof fn lemma_path_in(b: Seq<u8>, width: nat)
    requires
        segments_ok(b, width),
        width == 2 || width == 4,
    ensures
        path_octets(path_in(b, width), width) == b,
        path_sound(path_in(b, width)),
    decreases b.len(),
{
    let s = path_in(b, width);
    if b.len() > 0 {
        let end = (2 + width * b[1]) as int;
        let rest = b.skip(end);
        lemma_path_in(rest, width);
        lemma_numbers_in(b.subrange(2, end), width, b[1] as nat);
        assert(s.skip(1) =~= path_in(rest, width));
        assert(path_octets(s, width) =~= b);
        assert forall|i: int| 0 <= i < s.len() implies 1 <= (#[trigger] s[i]).kind <= 4 && 1
            <= s[i].asns.len() <= 255 by {
            if i > 0 {
                assert(s[i] == path_in(rest, width)[i - 1]);
            }
        }
    } else {
        assert(path_octets(s, width) =~= b);
    }
}

/// A list of stretches is an acceptable path.
pub proof fn lemma_path_octets(s: Seq<Segment>, width: nat)
    requires
        path_sound(s),
        width == 2 || width == 4,
    ensures
        segments_ok(path_octets(s, width), width),
    decreases s.len(),
{
    if s.len() > 0 {
        let rest = s.skip(1);
        assert forall|i: int| 0 <= i < rest.len() implies 1 <= (#[trigger] rest[i]).kind <= 4 && 1
            <= rest[i].asns.len() <= 255 by {
            assert(rest[i] == s[i + 1]);
        }
        lemma_path_octets(rest, width);
        lemma_numbers_len(s[0].asns, width);
        let b = path_octets(s, width);
        assert(1 <= s[0].kind <= 4);
        assert(b.skip((2 + width * b[1]) as int) =~= path_octets(rest, width));
    }
}

/// A prefix as it is written: its length and the octets that follow it.
pub struct Packed {
    pub len: u8,
    pub octets: Seq<u8>,
}

/// Packed prefixes, one after the other.
pub open spec fn packed_octets(s: Seq<Packed>) -> Seq<u8>
    decreases s.len(),
{
    if s.len() == 0 {
        Seq::empty()
    } else {
        seq![s[0].len] + s[0].octets + packed_octets(s.skip(1))
    }
}

/// No length exceeds the width of an address, and each has the octets that hold that
/// many bits and no more.
pub open spec fn packed_sound(s: Seq<Packed>, bits: nat) -> bool {
    forall|i: int|
        0 <= i < s.len() ==> (#[trigger] s[i]).len <= bits && s[i].octets.len() == (s[i].len + 7)
            / 8
}

spec fn packed_in(b: Seq<u8>) -> Seq<Packed>
    decreases b.len(),
{
    let n = (b[0] + 7) / 8;
    if b.len() == 0 || n >= b.len() {
        Seq::empty()
    } else {
        seq![Packed { len: b[0], octets: b.subrange(1, n + 1) }] + packed_in(b.skip(n + 1))
    }
}

/// Octets are acceptable NLRI exactly where they are a list of prefixes, each with a
/// length that the family allows and just the octets that hold that many bits.
pub proof fn law_acceptable_nlri_is_a_list_of_prefixes(b: Seq<u8>, bits: nat)
    ensures
        packed_ok(b, bits) <==> exists|s: Seq<Packed>|
            packed_sound(s, bits) && #[trigger] packed_octets(s) == b,
{
    if packed_ok(b, bits) {
        lemma_packed_in(b, bits);
        assert(packed_octets(packed_in(b)) == b);
    }
    if exists|s: Seq<Packed>| packed_sound(s, bits) && #[trigger] packed_octets(s) == b {
        let s = choose|s: Seq<Packed>| packed_sound(s, bits) && #[trigger] packed_octets(s) == b;
        lemma_packed_octets(s, bits);
    }
}

proof fn lemma_packed_in(b: Seq<u8>, bits: nat)
    requires
        packed_ok(b, bits),
    ensures
        packed_octets(packed_in(b)) == b,
        packed_sound(packed_in(b), bits),
    decreases b.len(),
{
    let s = packed_in(b);
    if b.len() > 0 {
        let n = (b[0] + 7) / 8;
        let rest = b.skip(n + 1);
        lemma_packed_in(rest, bits);
        assert(s.skip(1) =~= packed_in(rest));
        assert(packed_octets(s) =~= b);
        assert forall|i: int| 0 <= i < s.len() implies (#[trigger] s[i]).len <= bits
            && s[i].octets.len() == (s[i].len + 7) / 8 by {
            if i > 0 {
                assert(s[i] == packed_in(rest)[i - 1]);
            }
        }
    } else {
        assert(packed_octets(s) =~= b);
    }
}

/// A list of prefixes is acceptable NLRI.
pub proof fn lemma_packed_octets(s: Seq<Packed>, bits: nat)
    requires
        packed_sound(s, bits),
    ensures
        packed_ok(packed_octets(s), bits),
        packed_octets(s).len() > 0 <==> s.len() > 0,
    decreases s.len(),
{
    if s.len() > 0 {
        let rest = s.skip(1);
        assert forall|i: int| 0 <= i < rest.len() implies (#[trigger] rest[i]).len <= bits
            && rest[i].octets.len() == (rest[i].len + 7) / 8 by {
            assert(rest[i] == s[i + 1]);
        }
        lemma_packed_octets(rest, bits);
        let b = packed_octets(s);
        let n = (s[0].len + 7) / 8;
        assert(s[0].len <= bits);
        assert(b.skip(n + 1) =~= packed_octets(rest));
    }
}

/// An attribute of an UPDATE.
pub struct Part {
    pub flags: u8,
    pub kind: u8,
    pub data: Seq<u8>,
}

impl Part {
    /// The length takes two octets where the extended-length flag is set, else one.
    pub open spec fn octets(self) -> Seq<u8> {
        if self.flags / 16 % 2 == 1 {
            seq![self.flags, self.kind] + be(self.data.len(), 2) + self.data
        } else {
            seq![self.flags, self.kind, self.data.len() as u8] + self.data
        }
    }

    /// The length can be written.
    pub open spec fn fits(self) -> bool {
        self.data.len() <= if self.flags / 16 % 2 == 1 {
            0xffffint
        } else {
            255
        }
    }
}

/// Attributes, one after the other.
pub open spec fn parts_octets(s: Seq<Part>) -> Seq<u8>
    decreases s.len(),
{
    if s.len() == 0 {
        Seq::empty()
    } else {
        s[0].octets() + parts_octets(s.skip(1))
    }
}

pub open spec fn parts_fit(s: Seq<Part>) -> bool {
    forall|i: int| 0 <= i < s.len() ==> (#[trigger] s[i]).fits()
}

} // verus!
