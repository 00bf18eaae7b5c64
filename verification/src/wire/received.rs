//! What a received UPDATE calls for, by the list of its attributes.
use vstd::arithmetic::power2::pow2;
use vstd::prelude::*;

use crate::addr::{IpAddr, Ipv4Addr, Ipv6Addr};
use crate::bytes::{
    be, be_value, lemma_be2, lemma_be_len, lemma_be_of_be_value, lemma_be_value2,
    lemma_be_value_of_be, lemma_pow256_small,
};
use crate::net::{lemma_first_bounds, IpNet};
use crate::wire::decode::{
    announced_by, announced_in, announced_prefixes, padded, prefix_of, unpacked,
};
use crate::wire::error::Fault;
use crate::wire::open::Negotiated;
use crate::wire::parts::{
    lemma_packed_octets, lemma_path_octets, packed_octets, packed_sound, parts_fit, parts_octets,
    path_octets, path_sound, Packed, Part, Segment,
};
use crate::wire::validate::{
    attributes, attributes_len, effect, multiprotocol_effect, packed_ok, segments_ok,
    update_outcome, walk_start, withdrawn_len, UpdateAction, Walk,
};

verus! {

/// Whether no attribute before this one is of its type.
pub open spec fn is_first(s: Seq<Part>, i: int) -> bool {
    forall|j: int| 0 <= j < i ==> (#[trigger] s[j]).kind != s[i].kind
}

/// Whether an attribute of this type is there.
pub open spec fn has_kind(s: Seq<Part>, kind: u8) -> bool {
    exists|i: int| 0 <= i < s.len() && (#[trigger] s[i]).kind == kind
}

/// Attributes that count for nothing, whatever they hold: the four-octet paths and
/// aggregators that a four-octet speaker has no use for, and those that belong inside
/// an AS where they come from outside.
pub open spec fn unwanted(n: Negotiated, a: Part) -> bool {
    ||| a.kind == 17 && n.asn4
    ||| a.kind == 18 && n.asn4
    ||| a.kind == 5 && !n.internal
    ||| a.kind == 9 && !n.internal
    ||| a.kind == 10 && !n.internal
}

/// The flags suit the type: well-known attributes are not optional, but transitive;
/// the multiprotocol ones, MED and the reflection ones are optional and not
/// transitive; aggregators, communities and four-octet paths are optional and
/// transitive, and only these can be partial.
pub open spec fn flags_suit(a: Part) -> bool {
    let (optional, transitive, partial) = (
        a.flags >= 128,
        a.flags / 64 % 2 == 1,
        a.flags / 32 % 2 == 1,
    );
    if a.kind == 1 || a.kind == 2 || a.kind == 3 || a.kind == 5 || a.kind == 6 {
        !optional && transitive && !partial
    } else if a.kind == 4 || a.kind == 9 || a.kind == 10 || a.kind == 14 || a.kind == 15 {
        optional && !transitive && !partial
    } else if a.kind == 7 || a.kind == 8 || a.kind == 16 || a.kind == 17 || a.kind == 18 || a.kind
        == 32 {
        optional && transitive
    } else {
        true
    }
}

/// An address that a host can have, octet by octet.
pub open spec fn host_octets(d: Seq<u8>) -> bool {
    &&& d.len() == 4
    &&& d != seq![0u8, 0, 0, 0]
    &&& d != seq![255u8, 255, 255, 255]
    &&& !(224 <= d[0] <= 239)
}

/// The value has the form that its type asks for.
pub open spec fn value_suits(n: Negotiated, a: Part) -> bool {
    let d = a.data;
    let l = d.len();
    &&& a.kind == 1 ==> l == 1 && (d[0] == 0 || d[0] == 1 || d[0] == 2)
    &&& a.kind == 2 && n.asn4 ==> segments_ok(d, 4)
    &&& a.kind == 2 && !n.asn4 ==> segments_ok(d, 2)
    &&& a.kind == 3 ==> host_octets(d)
    &&& a.kind == 4 || a.kind == 5 || a.kind == 9 ==> l == 4
    &&& a.kind == 6 ==> l == 0
    &&& a.kind == 7 && n.asn4 ==> l == 8
    &&& a.kind == 7 && !n.asn4 ==> l == 6
    &&& a.kind == 8 || a.kind == 10 ==> l > 0 && l % 4 == 0
    &&& a.kind == 16 ==> l > 0 && l % 8 == 0
    &&& a.kind == 17 ==> l >= 6 && l % 2 == 0 && segments_ok(d, 4)
    &&& a.kind == 18 ==> l == 8
    &&& a.kind == 32 ==> l > 0 && l % 12 == 0
}

/// Whether the type is one of those that are known.
pub open spec fn is_known(kind: u8) -> bool {
    1 <= kind <= 10 || 14 <= kind <= 18 || kind == 32
}

/// Whether the value of a multiprotocol attribute is of IPv4 or IPv6 unicast.
pub open spec fn is_unicast(d: Seq<u8>) -> bool {
    d.len() >= 3 && d[0] == 0 && (d[1] == 1 || d[1] == 2) && d[2] == 1
}

/// Where the prefixes of a multiprotocol attribute start.
pub open spec fn nlri_start(a: Part) -> int {
    if a.kind == 14 {
        5 + a.data[3]
    } else {
        3
    }
}

/// A multiprotocol attribute whose start can be taken in: its flags suit, it is long
/// enough, and where it is of a family that is known, its next hop has the size of that
/// family.
pub open spec fn start_suits(a: Part) -> bool {
    let d = a.data;
    &&& flags_suit(a)
    &&& d.len() >= 3
    &&& a.kind == 14 ==> d.len() >= 5 && d.len() >= 5 + d[3]
    &&& a.kind == 14 && is_unicast(d) && d[1] == 1 ==> d[3] == 4
    &&& a.kind == 14 && is_unicast(d) && d[1] == 2 ==> d[3] == 16 || d[3] == 32
}

/// A multiprotocol attribute that can be taken in: its start can, and where it is of a
/// family that is known, its prefixes are well formed.
pub open spec fn multiprotocol_suits(a: Part) -> bool {
    let d = a.data;
    &&& start_suits(a)
    &&& is_unicast(d) && d[1] == 1 ==> packed_ok(d.skip(nlri_start(a)), 32)
    &&& is_unicast(d) && d[1] == 2 ==> packed_ok(d.skip(nlri_start(a)), 128)
}

/// Whether the attribute at a place ends the session.
pub open spec fn is_fatal(n: Negotiated, s: Seq<Part>, i: int) -> bool {
    let a = s[i];
    if a.kind == 14 || a.kind == 15 {
        !is_first(s, i) || !multiprotocol_suits(a)
    } else {
        is_first(s, i) && !is_known(a.kind) && a.flags < 128
    }
}

/// Whether the attribute at a place makes the UPDATE a withdrawal.
pub open spec fn is_spoiled(n: Negotiated, s: Seq<Part>, i: int) -> bool {
    let a = s[i];
    &&& is_first(s, i) && !unwanted(n, a)
    &&& a.kind != 14 && a.kind != 15
    &&& a.kind != 6 && a.kind != 7 && a.kind != 17 && a.kind != 18
    &&& !(flags_suit(a) && value_suits(n, a))
}

/// Whether the attribute at a place is left out.
pub open spec fn is_left_out(n: Negotiated, s: Seq<Part>, i: int) -> bool {
    let a = s[i];
    &&& a.kind != 14 && a.kind != 15
    &&& !is_first(s, i) || unwanted(n, a) || ((a.kind == 6 || a.kind == 7 || a.kind == 17 || a.kind
        == 18) && !(flags_suit(a) && value_suits(n, a)))
}

/// Whether the attribute at a place announces prefixes.
pub open spec fn is_reach(s: Seq<Part>, i: int) -> bool {
    s[i].kind == 14 && is_unicast(s[i].data) && s[i].data.len() > 5 + s[i].data[3]
}

/// The walk over the first attributes, none of which is fatal.
spec fn walked(n: Negotiated, s: Seq<Part>, k: int) -> Walk {
    Walk {
        seen: Set::new(|c: u8| exists|i: int| 0 <= i < k && (#[trigger] s[i]).kind == c),
        mp_reach: exists|i: int| #![trigger s[i]] 0 <= i < k && is_reach(s, i),
        action: if exists|i: int| #![trigger s[i]] 0 <= i < k && is_spoiled(n, s, i) {
            UpdateAction::TreatAsWithdraw
        } else if exists|i: int| #![trigger s[i]] 0 <= i < k && is_left_out(n, s, i) {
            UpdateAction::AttributeDiscard
        } else {
            UpdateAction::Valid
        },
    }
}

/// A list that starts with one whole attribute has its effect first.
proof fn lemma_part_first(n: Negotiated, a: Part, rest: Seq<u8>, w: Walk)
    requires
        a.fits(),
    ensures
        attributes(n, a.octets() + rest, w) == match effect(
            n,
            a.flags,
            a.kind,
            a.data,
            a.octets(),
            w,
        ) {
            Err(f) => Err(f),
            Ok(x) => attributes(n, rest, x),
        },
{
    let b = a.octets() + rest;
    let l = a.data.len() as int;
    if a.flags / 16 % 2 == 1 {
        lemma_be2(a.data.len());
        lemma_be_value_of_be(a.data.len(), 2);
        assert(b.subrange(2, 4) =~= be(a.data.len(), 2));
        assert(b.subrange(4, 4 + l) =~= a.data);
        assert(b.skip(4 + l) =~= rest);
        assert(b.take(4 + l) =~= a.octets());
    } else {
        assert(b.subrange(3, 3 + l) =~= a.data);
        assert(b.skip(3 + l) =~= rest);
        assert(b.take(3 + l) =~= a.octets());
    }
}

/// An address is a host's exactly where its octets are.
proof fn lemma_host_octets(d: Seq<u8>)
    requires
        d.len() == 4,
    ensures
        crate::config::valid_v4(Ipv4Addr { bits: be_value(d) as u32 }) <==> host_octets(d),
{
    crate::bytes::lemma_be_value4(d);
    if be_value(d) == 0 {
        assert(d =~= seq![0u8, 0, 0, 0]);
    }
    if be_value(d) == 0xffff_ffff {
        assert(d =~= seq![255u8, 255, 255, 255]);
    }
}

/// The effect of an attribute that is no multiprotocol one and met for the first time.
proof fn lemma_effect(n: Negotiated, a: Part, w: Walk)
    requires
        a.kind != 14,
        a.kind != 15,
        !w.seen.contains(a.kind),
    ensures
        ({
            let noted = Walk { seen: w.seen.insert(a.kind), ..w };
            let sound = flags_suit(a) && value_suits(n, a);
            let mild = a.kind == 6 || a.kind == 7 || a.kind == 17 || a.kind == 18;
            let r = effect(n, a.flags, a.kind, a.data, a.octets(), w);
            if !is_known(a.kind) && a.flags < 128 {
                r == Err::<Walk, Fault>(
                    Fault {
                        code: 3,
                        subcode: 2,
                        data: a.octets(),
                        reason: "unknown well-known attribute"@,
                    },
                )
            } else if unwanted(n, a) || (mild && !sound) {
                r == Ok::<Walk, Fault>(
                    Walk { action: w.action.stronger(UpdateAction::AttributeDiscard), ..noted },
                )
            } else if !sound {
                r == Ok::<Walk, Fault>(
                    Walk { action: w.action.stronger(UpdateAction::TreatAsWithdraw), ..noted },
                )
            } else {
                r == Ok::<Walk, Fault>(noted)
            }
        }),
{
    if a.kind == 3 && a.data.len() == 4 {
        lemma_host_octets(a.data);
    }
}

/// The effect of a multiprotocol attribute that can be taken in, and the fault of one
/// that cannot.
proof fn lemma_multiprotocol_effect(a: Part)
    requires
        a.kind == 14 || a.kind == 15,
    ensures
        multiprotocol_suits(a) ==> multiprotocol_effect(a.flags, a.kind, a.data) == Ok::<
            bool,
            Fault,
        >(a.kind == 14 && is_unicast(a.data) && a.data.len() > 5 + a.data[3]),
        !multiprotocol_suits(a) ==> (multiprotocol_effect(a.flags, a.kind, a.data) matches Err(f)
            && f.code == 3 && f.data.len() == 0 && f.subcode == if start_suits(a) {
            10int
        } else {
            9
        }),
{
    if a.data.len() >= 2 {
        lemma_be_value2(a.data.take(2));
    }
}

/// Nothing fatal among the first `k` attributes: the rest is walked with what they left.
proof fn lemma_walked(n: Negotiated, s: Seq<Part>, rest: Seq<u8>, k: int)
    requires
        0 <= k <= s.len(),
        parts_fit(s),
        forall|i: int| 0 <= i < k ==> !#[trigger] is_fatal(n, s, i),
    ensures
        attributes(n, parts_octets(s) + rest, walk_start()) == attributes(
            n,
            parts_octets(s.skip(k)) + rest,
            walked(n, s, k),
        ),
    decreases k,
{
    let now = walked(n, s, k);
    if k == 0 {
        assert(s.skip(0) =~= s);
        assert(now.seen =~= Set::<u8>::empty());
    } else {
        let i = k - 1;
        let a = s[i];
        let before = walked(n, s, i);
        lemma_walked(n, s, rest, i);
        let left = s.skip(i);
        assert(left[0] == a);
        assert(left.skip(1) =~= s.skip(k));
        let tail = parts_octets(s.skip(k)) + rest;
        assert(parts_octets(left) + rest =~= a.octets() + tail);
        lemma_part_first(n, a, tail, before);
        assert(before.seen.contains(a.kind) <==> !is_first(s, i));
        assert(!is_fatal(n, s, i));
        lemma_walk_grows(n, s, i);
        if a.kind == 14 || a.kind == 15 {
            lemma_multiprotocol_effect(a);
        } else if is_first(s, i) {
            lemma_effect(n, a, before);
        }
        assert(now.seen =~= before.seen.insert(a.kind));
        assert(before.seen.contains(a.kind) ==> now.seen =~= before.seen);
        assert(effect(n, a.flags, a.kind, a.data, a.octets(), before) == Ok::<Walk, Fault>(now));
    }
}

/// What one more attribute adds to the walk.
proof fn lemma_walk_grows(n: Negotiated, s: Seq<Part>, i: int)
    requires
        0 <= i < s.len(),
    ensures
        ({
            let (before, now) = (walked(n, s, i), walked(n, s, i + 1));
            &&& now.mp_reach == (before.mp_reach || is_reach(s, i))
            &&& now.action == before.action.stronger(
                if is_spoiled(n, s, i) {
                    UpdateAction::TreatAsWithdraw
                } else if is_left_out(n, s, i) {
                    UpdateAction::AttributeDiscard
                } else {
                    UpdateAction::Valid
                },
            )
            &&& now.seen == before.seen.insert(s[i].kind)
        }),
{
    let (before, now) = (walked(n, s, i), walked(n, s, i + 1));
    assert(now.seen =~= before.seen.insert(s[i].kind)) by {
        assert forall|c: u8| now.seen.contains(c) <==> before.seen.insert(s[i].kind).contains(
            c,
        ) by {
            if s[i].kind == c {
                assert(now.seen.contains(c));
            }
        }
    }
    let reach = |k: int| exists|j: int| #![trigger s[j]] 0 <= j < k && is_reach(s, j);
    let spoiled = |k: int| exists|j: int| #![trigger s[j]] 0 <= j < k && is_spoiled(n, s, j);
    let left_out = |k: int| exists|j: int| #![trigger s[j]] 0 <= j < k && is_left_out(n, s, j);
    assert(reach(i + 1) == (reach(i) || is_reach(s, i))) by {
        assert(is_reach(s, i) ==> s[i] == s[i] && reach(i + 1));
    }
    assert(spoiled(i + 1) == (spoiled(i) || is_spoiled(n, s, i))) by {
        assert(is_spoiled(n, s, i) ==> s[i] == s[i] && spoiled(i + 1));
    }
    assert(left_out(i + 1) == (left_out(i) || is_left_out(n, s, i))) by {
        assert(is_left_out(n, s, i) ==> s[i] == s[i] && left_out(i + 1));
    }
}

/// The body of an UPDATE: the prefixes that are gone, the attributes, and the prefixes
/// that follow them.
pub open spec fn update_octets(gone: Seq<Packed>, attrs: Seq<u8>, told: Seq<Packed>) -> Seq<u8> {
    be(packed_octets(gone).len(), 2) + packed_octets(gone) + be(attrs.len(), 2) + attrs
        + packed_octets(told)
}

/// The parts can be written and the prefixes are IPv4 ones.
pub open spec fn update_fits(gone: Seq<Packed>, attrs: Seq<u8>, told: Seq<Packed>) -> bool {
    &&& packed_sound(gone, 32)
    &&& packed_sound(told, 32)
    &&& packed_octets(gone).len() <= 0xffff
    &&& attrs.len() <= 0xffff
}

/// The parts of a body stand where the checks look for them.
pub proof fn lemma_update_parts(gone: Seq<Packed>, attrs: Seq<u8>, told: Seq<Packed>)
    requires
        update_fits(gone, attrs, told),
    ensures
        ({
            let b = update_octets(gone, attrs, told);
            let w = packed_octets(gone).len() as int;
            &&& withdrawn_len(b) == w
            &&& attributes_len(b) == attrs.len()
            &&& b.len() >= 4 + w + attrs.len()
            &&& b.subrange(2, 2 + w) == packed_octets(gone)
            &&& b.subrange(4 + w, 4 + w + attrs.len()) == attrs
            &&& b.skip(4 + w + attrs.len()) == packed_octets(told)
            &&& packed_ok(packed_octets(gone), 32)
            &&& packed_ok(packed_octets(told), 32)
            &&& packed_octets(told).len() > 0 <==> told.len() > 0
        }),
{
    let b = update_octets(gone, attrs, told);
    let w = packed_octets(gone).len() as int;
    lemma_be2(packed_octets(gone).len());
    lemma_be2(attrs.len());
    lemma_be_value_of_be(packed_octets(gone).len(), 2);
    lemma_be_value_of_be(attrs.len(), 2);
    assert(b.take(2) =~= be(packed_octets(gone).len(), 2));
    assert(b.subrange(2, 2 + w) =~= packed_octets(gone));
    assert(b.subrange(2 + w, 4 + w) =~= be(attrs.len(), 2));
    assert(b.subrange(4 + w, 4 + w + attrs.len()) =~= attrs);
    assert(b.skip(4 + w + attrs.len()) =~= packed_octets(told));
    lemma_packed_octets(gone, 32);
    lemma_packed_octets(told, 32);
}

/// Whether a list of attributes and what follows it announce prefixes.
pub open spec fn is_reachable(s: Seq<Part>, told: Seq<Packed>) -> bool {
    told.len() > 0 || exists|i: int| #![trigger s[i]] 0 <= i < s.len() && is_reach(s, i)
}

/// Whether an attribute is missing that the announced prefixes need.
pub open spec fn is_lacking(n: Negotiated, s: Seq<Part>, told: Seq<Packed>) -> bool {
    ||| is_reachable(s, told) && !has_kind(s, 1)
    ||| is_reachable(s, told) && !has_kind(s, 2)
    ||| is_reachable(s, told) && n.internal && !has_kind(s, 5)
    ||| told.len() > 0 && !has_kind(s, 3)
}

/// What an UPDATE of whole attributes calls for. A multiprotocol attribute that comes
/// twice or cannot be taken in, and an unknown well-known one, end the session. Else
/// an attribute that is wrong, or one that announced prefixes need and that is not
/// there, makes it a withdrawal of what it announces, which ends the session where that
/// is nothing. Else what is left out is left out; else the UPDATE is valid.
pub proof fn law_update_is_judged_by_its_attributes(
    n: Negotiated,
    gone: Seq<Packed>,
    s: Seq<Part>,
    told: Seq<Packed>,
)
    requires
        parts_fit(s),
        update_fits(gone, parts_octets(s), told),
    ensures
        ({
            let r = update_outcome(update_octets(gone, parts_octets(s), told), n);
            let fatal = exists|i: int| 0 <= i < s.len() && #[trigger] is_fatal(n, s, i);
            let spoiled = exists|i: int| 0 <= i < s.len() && #[trigger] is_spoiled(n, s, i);
            let left_out = exists|i: int| 0 <= i < s.len() && #[trigger] is_left_out(n, s, i);
            if fatal {
                r matches Err(f) && f.code == 3
            } else if spoiled || is_lacking(n, s, told) {
                if is_reachable(s, told) {
                    r == Ok::<UpdateAction, Fault>(UpdateAction::TreatAsWithdraw)
                } else {
                    r matches Err(f) && f.code == 3 && f.subcode == 1 && f.data.len() == 0
                }
            } else if left_out {
                r == Ok::<UpdateAction, Fault>(UpdateAction::AttributeDiscard)
            } else {
                r == Ok::<UpdateAction, Fault>(UpdateAction::Valid)
            }
        }),
{
    let attrs = parts_octets(s);
    let nothing = Seq::<u8>::empty();
    lemma_update_parts(gone, attrs, told);
    assert(attrs + nothing =~= attrs);
    if exists|i: int| 0 <= i < s.len() && #[trigger] is_fatal(n, s, i) {
        let i = choose|i: int| 0 <= i < s.len() && #[trigger] is_fatal(n, s, i);
        lemma_fatal(n, s, nothing, i);
    } else {
        lemma_walked(n, s, nothing, s.len() as int);
        assert(s.skip(s.len() as int) =~= Seq::<Part>::empty());
        assert(parts_octets(s.skip(s.len() as int)) + nothing =~= nothing);
        let end = walked(n, s, s.len() as int);
        assert(attributes(n, attrs, walk_start()) == Ok::<Walk, Fault>(end));
        assert(forall|c: u8| end.seen.contains(c) <==> has_kind(s, c));
        if exists|i: int| 0 <= i < s.len() && #[trigger] is_spoiled(n, s, i) {
            let i = choose|i: int| 0 <= i < s.len() && #[trigger] is_spoiled(n, s, i);
            assert(s[i] == s[i]);
        }
        if exists|i: int| 0 <= i < s.len() && #[trigger] is_left_out(n, s, i) {
            let i = choose|i: int| 0 <= i < s.len() && #[trigger] is_left_out(n, s, i);
            assert(s[i] == s[i]);
        }
    }
}

/// A fatal attribute ends the walk with a fault, at the latest at its place.
proof fn lemma_fatal(n: Negotiated, s: Seq<Part>, rest: Seq<u8>, at: int)
    requires
        0 <= at < s.len(),
        parts_fit(s),
        is_fatal(n, s, at),
    ensures
        attributes(n, parts_octets(s) + rest, walk_start()) matches Err(f) && f.code == 3,
    decreases at,
{
    if exists|i: int| 0 <= i < at && #[trigger] is_fatal(n, s, i) {
        let i = choose|i: int| 0 <= i < at && #[trigger] is_fatal(n, s, i);
        lemma_fatal(n, s, rest, i);
    } else {
        lemma_first_fatal(n, s, rest, at);
    }
}

/// The first fatal attribute is the one that is reported.
proof fn lemma_first_fatal(n: Negotiated, s: Seq<Part>, rest: Seq<u8>, at: int)
    requires
        0 <= at < s.len(),
        parts_fit(s),
        is_fatal(n, s, at),
        forall|i: int| 0 <= i < at ==> !#[trigger] is_fatal(n, s, i),
    ensures
        attributes(n, parts_octets(s) + rest, walk_start()) matches Err(f) && f.code == 3 && if s[at].kind
            != 14 && s[at].kind != 15 {
            f.subcode == 2 && f.data == s[at].octets()
        } else if !is_first(s, at) {
            f.subcode == 1 && f.data.len() == 0
        } else {
            f.data.len() == 0 && f.subcode == if start_suits(s[at]) {
                10int
            } else {
                9
            }
        },
{
    let a = s[at];
    let before = walked(n, s, at);
    lemma_walked(n, s, rest, at);
    let left = s.skip(at);
    assert(left[0] == a);
    let tail = parts_octets(left.skip(1)) + rest;
    assert(parts_octets(left) + rest =~= a.octets() + tail);
    lemma_part_first(n, a, tail, before);
    assert(before.seen.contains(a.kind) <==> !is_first(s, at));
    if a.kind == 14 || a.kind == 15 {
        lemma_multiprotocol_effect(a);
    } else {
        lemma_effect(n, a, before);
    }
}

/// What the peer is told of the first attribute that ends the session: an unknown
/// well-known one is sent back whole, and of a multiprotocol one it is told whether it
/// came twice, could not be read, or held prefixes that could not.
pub proof fn law_first_fatal_attribute_is_reported(
    n: Negotiated,
    gone: Seq<Packed>,
    s: Seq<Part>,
    told: Seq<Packed>,
    at: int,
)
    requires
        parts_fit(s),
        update_fits(gone, parts_octets(s), told),
        0 <= at < s.len(),
        is_fatal(n, s, at),
        forall|i: int| 0 <= i < at ==> !#[trigger] is_fatal(n, s, i),
    ensures
        update_outcome(update_octets(gone, parts_octets(s), told), n) matches Err(f) && f.code == 3
            && if s[at].kind != 14 && s[at].kind != 15 {
            f.subcode == 2 && f.data == s[at].octets()
        } else if !is_first(s, at) {
            f.subcode == 1 && f.data.len() == 0
        } else {
            f.data.len() == 0 && f.subcode == if start_suits(s[at]) {
                10int
            } else {
                9
            }
        },
{
    let nothing = Seq::<u8>::empty();
    lemma_update_parts(gone, parts_octets(s), told);
    assert(parts_octets(s) + nothing =~= parts_octets(s));
    lemma_first_fatal(n, s, nothing, at);
}

/// Whether octets are the start of an attribute that is not all there.
pub open spec fn is_cut_off(b: Seq<u8>) -> bool {
    ||| 0 < b.len() < 3
    ||| b.len() >= 3 && b[0] / 16 % 2 == 0 && 3 + b[2] > b.len()
    ||| b.len() == 3 && b[0] / 16 % 2 == 1
    ||| b.len() >= 4 && b[0] / 16 % 2 == 1 && 4 + b[2] * 256 + b[3] > b.len()
}

/// An attribute that is cut off makes the UPDATE a withdrawal where anything before it
/// or after the attributes is announced, else it ends the session; so does a
/// multiprotocol one in any case.
pub proof fn law_cut_off_attribute_withdraws(
    n: Negotiated,
    gone: Seq<Packed>,
    s: Seq<Part>,
    rest: Seq<u8>,
    told: Seq<Packed>,
)
    requires
        parts_fit(s),
        update_fits(gone, parts_octets(s) + rest, told),
        forall|i: int| 0 <= i < s.len() ==> !#[trigger] is_fatal(n, s, i),
        is_cut_off(rest),
    ensures
        ({
            let r = update_outcome(update_octets(gone, parts_octets(s) + rest, told), n);
            if rest.len() >= 3 && (rest[1] == 14 || rest[1] == 15) {
                r matches Err(f) && f.code == 3 && f.subcode == 9
            } else if is_reachable(s, told) {
                r == Ok::<UpdateAction, Fault>(UpdateAction::TreatAsWithdraw)
            } else {
                r matches Err(f) && f.code == 3 && f.subcode == 1
            }
        }),
{
    lemma_update_parts(gone, parts_octets(s) + rest, told);
    lemma_walked(n, s, rest, s.len() as int);
    assert(s.skip(s.len() as int) =~= Seq::<Part>::empty());
    assert(parts_octets(s.skip(s.len() as int)) + rest =~= rest);
    if rest.len() >= 4 {
        lemma_be_value2(rest.subrange(2, 4));
    }
}

/// A body whose lengths do not add up, or whose prefixes are not well formed, ends the
/// session, whatever its attributes are.
pub proof fn law_misshapen_update_is_fatal(n: Negotiated, b: Seq<u8>)
    ensures
        b.len() < 4 ==> (update_outcome(b, n) matches Err(f) && f.code == 3 && f.subcode == 1),
        b.len() >= 4 && b[0] * 256 + b[1] + 4 > b.len() ==> (update_outcome(b, n) matches Err(f)
            && f.code == 3 && f.subcode == 1),
        b.len() >= 4 && b[0] * 256 + b[1] + 4 <= b.len() ==> {
            let w = b[0] * 256 + b[1];
            let a = b[2 + w] * 256 + b[3 + w];
            &&& !packed_ok(b.subrange(2, 2 + w), 32) ==> (update_outcome(b, n) matches Err(f)
                && f.code == 3 && f.subcode == 10)
            &&& packed_ok(b.subrange(2, 2 + w), 32) && w + a + 4 > b.len() ==> (update_outcome(
                b,
                n,
            ) matches Err(f) && f.code == 3 && f.subcode == 1)
            &&& packed_ok(b.subrange(2, 2 + w), 32) && w + a + 4 <= b.len() && !packed_ok(
                b.skip(4 + w + a),
                32,
            ) ==> (update_outcome(b, n) matches Err(f) && f.code == 3 && f.subcode == 10)
        },
{
    if b.len() >= 4 {
        lemma_be_value2(b.take(2));
        let w = b[0] * 256 + b[1];
        if w + 4 <= b.len() {
            lemma_be_value2(b.subrange(2 + w, 4 + w));
        }
    }
}

/// An UPDATE with an origin, a path and a next hop is valid whatever the path is, as
/// long as each of its stretches is of a known type and not empty.
pub proof fn law_any_sound_path_is_valid(
    n: Negotiated,
    origin: u8,
    path: Seq<Segment>,
    hop: Seq<u8>,
    told: Seq<Packed>,
)
    requires
        !n.internal,
        origin <= 2,
        path_sound(path),
        path_octets(
            path,
            if n.asn4 {
                4
            } else {
                2
            },
        ).len() <= 0xff00,
        host_octets(hop),
        packed_sound(told, 32),
    ensures
        ({
            let data = path_octets(
                path,
                if n.asn4 {
                    4
                } else {
                    2
                },
            );
            let s = seq![
                Part { flags: 0x40, kind: 1, data: seq![origin] },
                Part { flags: 0x50, kind: 2, data },
                Part { flags: 0x40, kind: 3, data: hop },
            ];
            update_outcome(update_octets(Seq::empty(), parts_octets(s), told), n) == Ok::<
                UpdateAction,
                Fault,
            >(UpdateAction::Valid)
        }),
{
    let width: nat = if n.asn4 {
        4
    } else {
        2
    };
    let data = path_octets(path, width);
    let s = seq![
        Part { flags: 0x40, kind: 1, data: seq![origin] },
        Part { flags: 0x50, kind: 2, data },
        Part { flags: 0x40, kind: 3, data: hop },
    ];
    lemma_path_octets(path, width);
    lemma_be_len(data.len(), 2);
    reveal_with_fuel(parts_octets, 4);
    assert(s.skip(1)[0] == s[1]);
    assert(s.skip(1).skip(1)[0] == s[2]);
    assert(s.skip(1).skip(1).skip(1) =~= Seq::<Part>::empty());
    assert(parts_octets(s).len() <= 0xffff);
    assert(packed_octets(Seq::<Packed>::empty()) =~= Seq::<u8>::empty());
    law_update_is_judged_by_its_attributes(n, Seq::empty(), s, told);
    assert(s[0].kind == 1 && s[1].kind == 2 && s[2].kind == 3);
    assert(has_kind(s, 1) && has_kind(s, 2) && has_kind(s, 3));
}

/// Packed prefixes are read one by one: each has the length that is written, and the
/// address that its octets spell with zeros after them, without host bits.
pub proof fn law_packed_prefixes_are_read(s: Seq<Packed>, v6: bool, i: int)
    requires
        packed_sound(
            s,
            if v6 {
                128
            } else {
                32
            },
        ),
        0 <= i < s.len(),
    ensures
        unpacked(packed_octets(s), v6).len() == s.len(),
        ({
            let p = unpacked(packed_octets(s), v6)[i];
            let width: int = if v6 {
                16
            } else {
                4
            };
            let v = be_value(
                s[i].octets + Seq::new((width - s[i].octets.len()) as nat, |j: int| 0u8),
            ) as int;
            &&& p.prefix_len == s[i].len
            &&& match p.addr {
                IpAddr::V4(a) => !v6 && a.bits == v - v % pow2((32 - s[i].len) as nat) as int,
                IpAddr::V6(a) => v6 && a.bits == v - v % pow2((128 - s[i].len) as nat) as int,
            }
        }),
    decreases s.len(),
{
    let bits: nat = if v6 {
        128
    } else {
        32
    };
    let b = packed_octets(s);
    let rest = s.skip(1);
    let n = (s[0].len + 7) / 8;
    assert(s[0].len <= bits && s[0].octets.len() == n);
    assert(b.subrange(1, 1 + n) =~= s[0].octets);
    assert(b.skip(1 + n) =~= packed_octets(rest));
    assert forall|j: int| 0 <= j < rest.len() implies (#[trigger] rest[j]).len <= bits
        && rest[j].octets.len() == (rest[j].len + 7) / 8 by {
        assert(rest[j] == s[j + 1]);
    }
    if rest.len() > 0 {
        law_packed_prefixes_are_read(
            rest,
            v6,
            if i > 0 {
                i - 1
            } else {
                0
            },
        );
    } else {
        assert(packed_octets(rest) =~= Seq::<u8>::empty());
        assert(unpacked(packed_octets(rest), v6) =~= Seq::<IpNet>::empty());
    }
    let all = unpacked(b, v6);
    assert(all == seq![prefix_of(s[0].octets, s[0].len, v6)] + unpacked(packed_octets(rest), v6));
    if i == 0 {
        let width: nat = if v6 {
            16
        } else {
            4
        };
        let whole = s[0].octets + Seq::new((width - n) as nat, |j: int| 0u8);
        assert(whole =~= padded(s[0].octets, width));
        lemma_be_of_be_value(whole);
        lemma_pow256_small();
        let raw = IpNet {
            addr: if v6 {
                IpAddr::V6(Ipv6Addr { bits: be_value(whole) as u128 })
            } else {
                IpAddr::V4(Ipv4Addr { bits: be_value(whole) as u32 })
            },
            prefix_len: s[0].len,
        };
        lemma_first_bounds(raw);
    } else {
        assert(all[i] == unpacked(packed_octets(rest), v6)[i - 1]);
        assert(rest[i - 1] == s[i]);
    }
}

/// What an UPDATE announces: the prefixes after its attributes, and then those of its
/// attributes, in order.
pub proof fn law_announced_prefixes_are_gathered(
    gone: Seq<Packed>,
    s: Seq<Part>,
    told: Seq<Packed>,
)
    requires
        parts_fit(s),
        update_fits(gone, parts_octets(s), told),
    ensures
        announced_prefixes(update_octets(gone, parts_octets(s), told)) == unpacked(
            packed_octets(told),
            false,
        ) + announced_in(parts_octets(s)),
{
    lemma_update_parts(gone, parts_octets(s), told);
}

/// Attributes announce one after the other. Only those of type 14 announce anything, and
/// only where they are of unicast: the prefixes behind the next hop, of IPv6 where the
/// family is two and of IPv4 where it is one.
pub proof fn law_attribute_announces_its_prefixes(
    a: Part,
    rest: Seq<Part>,
    afi: u8,
    safi: u8,
    hop: Seq<u8>,
    reserved: u8,
    told: Seq<Packed>,
)
    requires
        a.fits(),
        hop.len() <= 255,
    ensures
        announced_in(parts_octets(seq![a] + rest)) == announced_by(a.kind, a.data) + announced_in(
            parts_octets(rest),
        ),
        announced_in(Seq::empty()) == Seq::<IpNet>::empty(),
        a.kind != 14 ==> announced_by(a.kind, a.data) == Seq::<IpNet>::empty(),
        announced_by(
            14,
            seq![0u8, afi, safi, hop.len() as u8] + hop + seq![reserved] + packed_octets(told),
        ) == if safi == 1 && (afi == 1 || afi == 2) {
            unpacked(packed_octets(told), afi == 2)
        } else {
            Seq::empty()
        },
{
    let all = seq![a] + rest;
    assert(all.skip(1) =~= rest);
    let tail = parts_octets(rest);
    let b = a.octets() + tail;
    assert(parts_octets(all) =~= b);
    let l = a.data.len() as int;
    if a.flags / 16 % 2 == 1 {
        lemma_be2(a.data.len());
        lemma_be_value_of_be(a.data.len(), 2);
        assert(b.subrange(2, 4) =~= be(a.data.len(), 2));
        assert(b.subrange(4, 4 + l) =~= a.data);
        assert(b.skip(4 + l) =~= tail);
    } else {
        assert(b.subrange(3, 3 + l) =~= a.data);
        assert(b.skip(3 + l) =~= tail);
    }
    let d = seq![0u8, afi, safi, hop.len() as u8] + hop + seq![reserved] + packed_octets(told);
    lemma_be_value2(d.take(2));
    assert(d.skip(5 + hop.len() as int) =~= packed_octets(told));
}

} // verus!
