//! Checking of received UPDATE and ROUTE-REFRESH messages.
use vstd::prelude::*;

use crate::addr::Ipv4Addr;
use crate::bytes::{append, be_value, u16b};
use crate::config::valid_v4;
use crate::wire::encode::octets_for;
use crate::wire::error::{err, fault, Error, Fault, ProtocolError};
use crate::wire::frame::agrees;
use crate::wire::open::Negotiated;

verus! {

/// The strongest nonfatal handling required for a received UPDATE.
/// There is no inbound RIB, so both recovery actions preserve the session without
/// installing routes. Fatal errors are returned separately as [`ProtocolError`].
#[derive(Clone, Copy, Debug, PartialEq, Eq, PartialOrd, Ord, Structural)]
pub enum UpdateAction {
    Valid,
    AttributeDiscard,
    TreatAsWithdraw,
}

impl UpdateAction {
    /// The stronger of two actions.
    pub open spec fn spec_stronger(self, other: UpdateAction) -> UpdateAction {
        if self is TreatAsWithdraw || other is Valid {
            self
        } else {
            other
        }
    }

    /// The stronger of two actions.
    #[verifier::when_used_as_spec(spec_stronger)]
    pub fn stronger(self, other: UpdateAction) -> (r: UpdateAction)
        ensures
            r == self.stronger(other),
    {
        match (self, other) {
            (UpdateAction::TreatAsWithdraw, _) => self,
            (_, UpdateAction::Valid) => self,
            _ => other,
        }
    }
}

/// Packed prefixes, none longer than `bits`, that fill `b` exactly.
pub open spec fn packed_ok(b: Seq<u8>, bits: nat) -> bool
    decreases b.len(),
{
    b.len() == 0 || {
        let n = octets_for(b[0]);
        &&& b[0] <= bits
        &&& n < b.len()
        &&& packed_ok(b.skip(n + 1), bits)
    }
}

/// Check packed prefix lengths and available bytes for an address width in bits.
fn validate_nlri(b: &[u8], bits: usize) -> (r: Result<(), ProtocolError>)
    ensures
        r is Ok <==> packed_ok(b@, bits as nat),
        r matches Err(e) ==> e@ == fault(3, 10, "invalid NLRI"@),
{
    let mut rest = b;
    while rest.len() > 0
        invariant
            packed_ok(b@, bits as nat) == packed_ok(rest@, bits as nat),
        decreases rest@.len(),
    {
        let n: usize = octets_for(rest[0]);
        if rest[0] as usize > bits || n >= rest.len() {
            return Err(err(3, 10, "invalid NLRI"));
        }
        assert(rest@.skip(n + 1) =~= rest@.subrange(n + 1, rest@.len() as int));
        rest = &rest[n + 1..rest.len()];
    }
    Ok(())
}

/// AS path segments of known types, none empty, that fill `b` exactly.
pub open spec fn segments_ok(b: Seq<u8>, width: nat) -> bool
    decreases b.len(),
{
    b.len() == 0 || {
        &&& b.len() >= 2
        &&& 1 <= b[0] <= 4
        &&& b[1] > 0
        &&& 2 + width * b[1] <= b.len()
        &&& segments_ok(b.skip((2 + width * b[1]) as int), width)
    }
}

/// What is wrong with the first AS path segment that is not right.
pub open spec fn path_fault(b: Seq<u8>, width: nat) -> Option<Seq<char>>
    decreases b.len(),
{
    if b.len() == 0 {
        None
    } else if b.len() < 2 || !(1 <= b[0] <= 4) || b[1] == 0 {
        Some("invalid AS_PATH segment"@)
    } else if 2 + width * b[1] > b.len() {
        Some("truncated AS_PATH"@)
    } else {
        path_fault(b.skip((2 + width * b[1]) as int), width)
    }
}

/// Check AS_PATH segment types and lengths using a two- or four-byte ASN width.
fn validate_path(b: &[u8], width: usize) -> (r: Result<(), ProtocolError>)
    requires
        width == 2 || width == 4,
    ensures
        r is Ok <==> segments_ok(b@, width as nat),
        match path_fault(b@, width as nat) {
            None => r is Ok,
            Some(reason) => r matches Err(e) && e@ == fault(3, 11, reason),
        },
{
    let mut rest = b;
    while rest.len() > 0
        invariant
            width == 2 || width == 4,
            segments_ok(b@, width as nat) == segments_ok(rest@, width as nat),
            path_fault(b@, width as nat) == path_fault(rest@, width as nat),
        decreases rest@.len(),
    {
        if rest.len() < 2 || rest[0] < 1 || rest[0] > 4 || rest[1] == 0 {
            return Err(err(3, 11, "invalid AS_PATH segment"));
        }
        let len: usize = if width == 2 {
            2 + 2 * rest[1] as usize
        } else {
            2 + 4 * rest[1] as usize
        };
        assert(len == 2 + width * rest@[1]);
        if len > rest.len() {
            return Err(err(3, 11, "truncated AS_PATH"));
        }
        assert(rest@.skip(len as int) =~= rest@.subrange(len as int, rest@.len() as int));
        rest = &rest[len..rest.len()];
    }
    Ok(())
}

/// Where a walk over the attributes of an UPDATE stands.
pub struct Walk {
    /// The attribute types met.
    pub seen: Set<u8>,
    /// Whether a multiprotocol attribute announced a prefix.
    pub mp_reach: bool,
    pub action: UpdateAction,
}

/// The walk with a recovery action taken into account.
pub open spec fn raise(w: Walk, action: UpdateAction) -> Walk {
    Walk { action: w.action.stronger(action), ..w }
}

/// The attributes that carry multiprotocol prefixes.
pub open spec fn is_mp(kind: u8) -> bool {
    kind == 14 || kind == 15
}

/// Attributes that are discarded whatever they hold: AS4 attributes from a
/// four-octet speaker, and internal ones from outside.
pub open spec fn is_discarded(n: Negotiated, kind: u8) -> bool {
    (n.asn4 && (kind == 17 || kind == 18)) || (!n.internal && (kind == 5 || kind == 9 || kind
        == 10))
}

/// The optional and transitive bits that an attribute must have, as a number
/// of two bits.
pub open spec fn flag_class(kind: u8) -> Option<u8> {
    if kind == 1 || kind == 2 || kind == 3 || kind == 5 || kind == 6 {
        Some(1)
    } else if kind == 4 || kind == 9 || kind == 10 || kind == 14 || kind == 15 {
        Some(2)
    } else if kind == 7 || kind == 8 || kind == 16 || kind == 17 || kind == 18 || kind == 32 {
        Some(3)
    } else {
        None
    }
}

/// The flags suit the attribute type. The partial bit belongs to optional
/// transitive attributes alone.
pub open spec fn flags_ok(flags: u8, kind: u8) -> bool {
    match flag_class(kind) {
        None => true,
        Some(c) => flags / 64 == c && (flags / 32 % 2 == 0 || c == 3),
    }
}

/// The value of a known attribute has the right form.
pub open spec fn value_ok(n: Negotiated, kind: u8, data: Seq<u8>) -> bool {
    let l = data.len();
    if kind == 1 {
        l == 1 && data[0] <= 2
    } else if kind == 2 {
        segments_ok(
            data,
            if n.asn4 {
                4
            } else {
                2
            },
        )
    } else if kind == 3 {
        l == 4 && valid_v4(Ipv4Addr { bits: be_value(data) as u32 })
    } else if kind == 4 || kind == 5 || kind == 9 {
        l == 4
    } else if kind == 6 {
        l == 0
    } else if kind == 7 {
        l == if n.asn4 {
            8int
        } else {
            6int
        }
    } else if kind == 8 || kind == 10 {
        l != 0 && l % 4 == 0
    } else if kind == 16 {
        l != 0 && l % 8 == 0
    } else if kind == 17 {
        l >= 6 && l % 2 == 0 && segments_ok(data, 4)
    } else if kind == 18 {
        l == 8
    } else if kind == 32 {
        l != 0 && l % 12 == 0
    } else {
        true
    }
}

/// What a malformed attribute of this type costs.
pub open spec fn severity(kind: u8) -> UpdateAction {
    if kind == 6 || kind == 7 || kind == 17 || kind == 18 {
        UpdateAction::AttributeDiscard
    } else {
        UpdateAction::TreatAsWithdraw
    }
}

/// Whether a multiprotocol attribute announces anything, or what is wrong with it.
pub open spec fn multiprotocol_effect(flags: u8, kind: u8, data: Seq<u8>) -> Result<bool, Fault> {
    let l = data.len();
    let afi = be_value(data.take(2));
    let unicast = data[2] == 1 && (afi == 1 || afi == 2);
    let start: int = if kind == 14 {
        5 + data[3]
    } else {
        3
    };
    let bits: nat = if afi == 1 {
        32
    } else {
        128
    };
    if !flags_ok(flags, kind) {
        Err(fault(3, 9, "invalid multiprotocol attribute flags"@))
    } else if l < 3 {
        Err(fault(3, 9, "short multiprotocol attribute"@))
    } else if kind == 14 && (l < 5 || data[3] + 5 > l) {
        Err(fault(3, 9, "invalid MP_REACH next hop"@))
    } else if kind == 14 && unicast && !(if afi == 2 {
        data[3] == 16 || data[3] == 32
    } else {
        data[3] == 4
    }) {
        Err(fault(3, 9, "invalid MP_REACH next-hop size"@))
    } else if unicast && !packed_ok(data.skip(start), bits) {
        Err(fault(3, 10, "invalid NLRI"@))
    } else {
        Ok(unicast && kind == 14 && start < l)
    }
}

/// The effect of one whole attribute; `raw` is the attribute with its header.
pub open spec fn effect(
    n: Negotiated,
    flags: u8,
    kind: u8,
    data: Seq<u8>,
    raw: Seq<u8>,
    w: Walk,
) -> Result<Walk, Fault> {
    let noted = Walk { seen: w.seen.insert(kind), ..w };
    if w.seen.contains(kind) {
        if is_mp(kind) {
            Err(fault(3, 1, "duplicate multiprotocol attribute"@))
        } else {
            Ok(raise(w, UpdateAction::AttributeDiscard))
        }
    } else if is_discarded(n, kind) {
        Ok(raise(noted, UpdateAction::AttributeDiscard))
    } else if is_mp(kind) {
        match multiprotocol_effect(flags, kind, data) {
            Err(f) => Err(f),
            Ok(reach) => Ok(Walk { mp_reach: w.mp_reach || reach, ..noted }),
        }
    } else if flag_class(kind) is None && flags < 128 {
        Err(
            Fault { code: 3, subcode: 2, data: raw, reason: "unknown well-known attribute"@ },
        )
    } else if !flags_ok(flags, kind) || !value_ok(n, kind, data) {
        Ok(raise(noted, severity(kind)))
    } else {
        Ok(noted)
    }
}

/// The length of an attribute's header.
pub open spec fn header_len(flags: u8) -> int {
    if flags / 16 % 2 == 1 {
        4
    } else {
        3
    }
}

/// The length of an attribute's value, as its header gives it.
pub open spec fn value_len(b: Seq<u8>) -> nat {
    if header_len(b[0]) == 4 {
        be_value(b.subrange(2, 4))
    } else {
        b[2] as nat
    }
}

/// The effect of a list of attributes. A fault ends it. A broken header or
/// length ends it too, and the UPDATE is to be treated as a withdrawal.
pub open spec fn attributes(n: Negotiated, b: Seq<u8>, w: Walk) -> Result<Walk, Fault>
    decreases b.len(),
{
    if b.len() == 0 {
        Ok(w)
    } else if b.len() < 3 {
        Ok(raise(w, UpdateAction::TreatAsWithdraw))
    } else {
        let kind = b[1];
        let h = header_len(b[0]);
        let end = h + value_len(b);
        if b.len() < h {
            if is_mp(kind) {
                Err(fault(3, 9, "short multiprotocol attribute header"@))
            } else {
                Ok(raise(w, UpdateAction::TreatAsWithdraw))
            }
        } else if end > b.len() {
            if is_mp(kind) {
                Err(fault(3, 9, "truncated multiprotocol attribute"@))
            } else {
                Ok(raise(w, UpdateAction::TreatAsWithdraw))
            }
        } else {
            match effect(n, b[0], kind, b.subrange(h, end), b.take(end), w) {
                Err(f) => Err(f),
                Ok(x) => attributes(n, b.skip(end), x),
            }
        }
    }
}

/// Nothing met yet.
pub open spec fn walk_start() -> Walk {
    Walk { seen: Set::empty(), mp_reach: false, action: UpdateAction::Valid }
}

/// How many bytes of withdrawn prefixes an UPDATE body announces.
pub open spec fn withdrawn_len(b: Seq<u8>) -> int {
    be_value(b.take(2)) as int
}

/// How many bytes of attributes an UPDATE body announces.
pub open spec fn attributes_len(b: Seq<u8>) -> int {
    let w = withdrawn_len(b);
    be_value(b.subrange(2 + w, 4 + w)) as int
}

/// The verdict once the attributes have been walked. Announced prefixes need
/// ORIGIN, AS_PATH and, inside the AS, LOCAL_PREF; prefixes after the attributes
/// need NEXT_HOP. Without announced prefixes there is nothing to withdraw.
pub open spec fn verdict(n: Negotiated, trailing: bool, s: Walk) -> Result<UpdateAction, Fault> {
    let reachable = trailing || s.mp_reach;
    let missing = {
        ||| reachable && (!s.seen.contains(1) || !s.seen.contains(2) || (n.internal
            && !s.seen.contains(5)))
        ||| trailing && !s.seen.contains(3)
    };
    let action = if missing {
        UpdateAction::TreatAsWithdraw
    } else {
        s.action
    };
    if action is TreatAsWithdraw && !reachable {
        Err(fault(3, 1, "cannot recover UPDATE without reachable NLRI"@))
    } else {
        Ok(action)
    }
}

/// What an UPDATE body calls for.
pub open spec fn update_outcome(b: Seq<u8>, n: Negotiated) -> Result<UpdateAction, Fault> {
    let w = withdrawn_len(b);
    let a = attributes_len(b);
    if b.len() < 4 {
        Err(fault(3, 1, "short UPDATE"@))
    } else if w + 4 > b.len() {
        Err(fault(3, 1, "invalid withdrawn length"@))
    } else if !packed_ok(b.subrange(2, 2 + w), 32) {
        Err(fault(3, 10, "invalid NLRI"@))
    } else if w + a + 4 > b.len() {
        Err(fault(3, 1, "invalid attributes length"@))
    } else if !packed_ok(b.skip(4 + w + a), 32) {
        Err(fault(3, 10, "invalid NLRI"@))
    } else {
        match attributes(n, b.subrange(4 + w, 4 + w + a), walk_start()) {
            Err(f) => Err(f),
            Ok(s) => verdict(n, b.len() > 4 + w + a, s),
        }
    }
}

/// The state of a walk over attributes.
struct Scan {
    seen: Vec<bool>,
    mp_reach: bool,
    action: UpdateAction,
}

impl Scan {
    spec fn wf(self) -> bool {
        self.seen@.len() == 256
    }

    spec fn walk(self) -> Walk {
        Walk {
            seen: Set::new(|k: u8| self.seen@[k as int]),
            mp_reach: self.mp_reach,
            action: self.action,
        }
    }

    fn raise(&mut self, action: UpdateAction)
        requires
            old(self).wf(),
        ensures
            final(self).wf(),
            final(self).walk() == raise(old(self).walk(), action),
    {
        self.action = self.action.stronger(action);
        assert(self.walk().seen =~= old(self).walk().seen);
    }
}

fn check_flags(flags: u8, kind: u8) -> (r: bool)
    ensures
        r == flags_ok(flags, kind),
{
    match kind {
        1 | 2 | 3 | 5 | 6 => flags / 64 == 1 && flags / 32 % 2 == 0,
        4 | 9 | 10 | 14 | 15 => flags / 64 == 2 && flags / 32 % 2 == 0,
        7 | 8 | 16 | 17 | 18 | 32 => flags / 64 == 3,
        _ => true,
    }
}

fn check_value(n: &Negotiated, kind: u8, data: &[u8]) -> (r: bool)
    ensures
        r == value_ok(*n, kind, data@),
{
    let l: usize = data.len();
    match kind {
        1 => l == 1 && data[0] <= 2,
        2 => {
            let width: usize = if n.asn4 {
                4
            } else {
                2
            };
            validate_path(data, width).is_ok()
        },
        3 => {
            if l != 4 {
                false
            } else {
                let a = Ipv4Addr::new(data[0], data[1], data[2], data[3]);
                proof {
                    crate::bytes::lemma_be_value4(data@);
                }
                valid_v4(a)
            }
        },
        4 | 5 | 9 => l == 4,
        6 => l == 0,
        7 => if n.asn4 {
            l == 8
        } else {
            l == 6
        },
        8 | 10 => l != 0 && l % 4 == 0,
        16 => l != 0 && l % 8 == 0,
        17 => l >= 6 && l % 2 == 0 && validate_path(data, 4).is_ok(),
        18 => l == 8,
        32 => l != 0 && l % 12 == 0,
        _ => true,
    }
}

fn check_multiprotocol(flags: u8, kind: u8, data: &[u8]) -> (r: Result<bool, ProtocolError>)
    requires
        is_mp(kind),
    ensures
        agrees(r, multiprotocol_effect(flags, kind, data@)),
{
    let l: usize = data.len();
    if !check_flags(flags, kind) {
        return Err(err(3, 9, "invalid multiprotocol attribute flags"));
    }
    if l < 3 {
        return Err(err(3, 9, "short multiprotocol attribute"));
    }
    let afi: u16 = u16b(data);
    assert(data@.take(2) =~= data@.subrange(0, 2));
    let unicast: bool = data[2] == 1 && (afi == 1 || afi == 2);
    let mut start: usize = 3;
    if kind == 14 {
        if l < 5 || data[3] as usize + 5 > l {
            return Err(err(3, 9, "invalid MP_REACH next hop"));
        }
        if unicast {
            let size_ok: bool = if afi == 2 {
                data[3] == 16 || data[3] == 32
            } else {
                data[3] == 4
            };
            if !size_ok {
                return Err(err(3, 9, "invalid MP_REACH next-hop size"));
            }
        }
        start = 5 + data[3] as usize;
    }
    if unicast {
        let bits: usize = if afi == 1 {
            32
        } else {
            128
        };
        assert(data@.skip(start as int) =~= data@.subrange(start as int, data@.len() as int));
        match validate_nlri(&data[start..l], bits) {
            Ok(_) => {},
            Err(e) => {
                return Err(e);
            },
        }
    }
    Ok(unicast && kind == 14 && start < l)
}

/// Take in one whole attribute.
fn check_attribute(
    n: &Negotiated,
    flags: u8,
    kind: u8,
    data: &[u8],
    raw: &[u8],
    scan: &mut Scan,
) -> (r: Result<(), ProtocolError>)
    requires
        old(scan).wf(),
    ensures
        final(scan).wf(),
        match (r, effect(*n, flags, kind, data@, raw@, old(scan).walk())) {
            (Ok(_), Ok(w)) => final(scan).walk() == w,
            (Err(e), Err(f)) => e@ == f,
            _ => false,
        },
{
    let mp: bool = kind == 14 || kind == 15;
    if scan.seen[kind as usize] {
        if mp {
            return Err(err(3, 1, "duplicate multiprotocol attribute"));
        }
        scan.raise(UpdateAction::AttributeDiscard);
        return Ok(());
    }
    scan.seen.set(kind as usize, true);
    assert(scan.walk().seen =~= old(scan).walk().seen.insert(kind));
    if (n.asn4 && (kind == 17 || kind == 18)) || (!n.internal && (kind == 5 || kind == 9 || kind
        == 10)) {
        scan.raise(UpdateAction::AttributeDiscard);
        return Ok(());
    }
    if mp {
        match check_multiprotocol(flags, kind, data) {
            Ok(reach) => {
                if reach {
                    scan.mp_reach = true;
                }
                assert(scan.walk().seen =~= old(scan).walk().seen.insert(kind));
                return Ok(());
            },
            Err(e) => {
                return Err(e);
            },
        }
    }
    let known: bool = match kind {
        1 | 2 | 3 | 4 | 5 | 6 | 7 | 8 | 9 | 10 | 16 | 17 | 18 | 32 => true,
        _ => false,
    };
    if !known && flags < 128 {
        let mut offending: Vec<u8> = Vec::new();
        append(&mut offending, raw);
        assert(offending@ =~= raw@);
        return Err(
            ProtocolError {
                code: 3,
                subcode: 2,
                data: offending,
                reason: "unknown well-known attribute",
            },
        );
    }
    if !check_flags(flags, kind) || !check_value(n, kind, data) {
        scan.raise(
            if kind == 6 || kind == 7 || kind == 17 || kind == 18 {
                UpdateAction::AttributeDiscard
            } else {
                UpdateAction::TreatAsWithdraw
            },
        );
    }
    Ok(())
}

/// Walk the attributes of an UPDATE.
fn check_attributes(n: &Negotiated, b: &[u8], scan: &mut Scan) -> (r: Result<(), ProtocolError>)
    requires
        old(scan).wf(),
    ensures
        final(scan).wf(),
        match (r, attributes(*n, b@, old(scan).walk())) {
            (Ok(_), Ok(w)) => final(scan).walk() == w,
            (Err(e), Err(f)) => e@ == f,
            _ => false,
        },
{
    let mut rest = b;
    while rest.len() > 0
        invariant
            scan.wf(),
            attributes(*n, b@, old(scan).walk()) == attributes(*n, rest@, scan.walk()),
        decreases rest@.len(),
    {
        if rest.len() < 3 {
            scan.raise(UpdateAction::TreatAsWithdraw);
            return Ok(());
        }
        let flags: u8 = rest[0];
        let kind: u8 = rest[1];
        let mp: bool = kind == 14 || kind == 15;
        let h: usize = if flags / 16 % 2 == 1 {
            4
        } else {
            3
        };
        if rest.len() < h {
            if mp {
                return Err(err(3, 9, "short multiprotocol attribute header"));
            }
            scan.raise(UpdateAction::TreatAsWithdraw);
            return Ok(());
        }
        let l: usize = if h == 4 {
            assert(rest@.subrange(2, 4).subrange(0, 2) =~= rest@.subrange(2, 4));
            u16b(&rest[2..4]) as usize
        } else {
            rest[2] as usize
        };
        let end: usize = h + l;
        if end > rest.len() {
            if mp {
                return Err(err(3, 9, "truncated multiprotocol attribute"));
            }
            scan.raise(UpdateAction::TreatAsWithdraw);
            return Ok(());
        }
        assert(rest@.take(end as int) =~= rest@.subrange(0, end as int));
        match check_attribute(n, flags, kind, &rest[h..end], &rest[0..end], scan) {
            Ok(_) => {},
            Err(e) => {
                return Err(e);
            },
        }
        assert(rest@.skip(end as int) =~= rest@.subrange(end as int, rest@.len() as int));
        rest = &rest[end..rest.len()];
    }
    Ok(())
}

/// Check an UPDATE and classify recoverable errors under RFC 7606 and RFC 6793.
/// Continue checking after recoverable errors so a later fatal error still wins.
pub fn validate_update(b: &[u8], n: &Negotiated) -> (r: Result<UpdateAction, ProtocolError>)
    ensures
        agrees(r, update_outcome(b@, *n)),
{
    if b.len() < 4 {
        return Err(err(3, 1, "short UPDATE"));
    }
    let w: usize = u16b(b) as usize;
    assert(b@.take(2) =~= b@.subrange(0, 2));
    if w + 4 > b.len() {
        return Err(err(3, 1, "invalid withdrawn length"));
    }
    match validate_nlri(&b[2..2 + w], 32) {
        Ok(_) => {},
        Err(e) => {
            return Err(e);
        },
    }
    assert(b@.subrange(2 + w, 4 + w).subrange(0, 2) =~= b@.subrange(2 + w, 4 + w));
    let a: usize = u16b(&b[2 + w..4 + w]) as usize;
    if w + a + 4 > b.len() {
        return Err(err(3, 1, "invalid attributes length"));
    }
    let tail: &[u8] = &b[4 + w + a..b.len()];
    assert(b@.skip(4 + w + a) =~= tail@);
    match validate_nlri(tail, 32) {
        Ok(_) => {},
        Err(e) => {
            return Err(e);
        },
    }
    let mut seen: Vec<bool> = Vec::new();
    let mut i: usize = 0;
    while i < 256
        invariant
            i <= 256,
            seen@.len() == i,
            forall|j: int| 0 <= j < i ==> seen@[j] == false,
        decreases 256 - i,
    {
        seen.push(false);
        i += 1;
    }
    let mut scan = Scan { seen, mp_reach: false, action: UpdateAction::Valid };
    assert(scan.walk().seen =~= Set::<u8>::empty());
    match check_attributes(n, &b[4 + w..4 + w + a], &mut scan) {
        Ok(_) => {},
        Err(e) => {
            return Err(e);
        },
    }
    let trailing: bool = tail.len() > 0;
    let reachable: bool = trailing || scan.mp_reach;
    let missing: bool = (reachable && (!scan.seen[1] || !scan.seen[2] || (n.internal
        && !scan.seen[5]))) || (trailing && !scan.seen[3]);
    let action = if missing {
        UpdateAction::TreatAsWithdraw
    } else {
        scan.action
    };
    if action == UpdateAction::TreatAsWithdraw && !reachable {
        return Err(err(3, 1, "cannot recover UPDATE without reachable NLRI"));
    }
    Ok(action)
}

/// What a body that asks for a refresh calls for: a family, or nothing.
pub open spec fn refresh_of(b: Seq<u8>, n: Negotiated) -> Option<bool> {
    let afi = be_value(b.take(2));
    if b[2] != 0 || b[3] != 1 {
        None
    } else if afi == 1 && n.ipv4 {
        Some(false)
    } else if afi == 2 && n.ipv6 {
        Some(true)
    } else {
        None
    }
}

/// Decode a basic unicast refresh: `Some(true)` for IPv6, `Some(false)` for IPv4.
/// Ignore unsupported subtypes and families; reject bodies that are not four bytes.
pub fn refresh_family(b: &[u8], n: &Negotiated) -> (r: Result<Option<bool>, Error>)
    ensures
        match r {
            Ok(f) => b@.len() == 4 && f == refresh_of(b@, *n),
            Err(e) => b@.len() != 4 && (e matches Error::Other(s) && s@
                == "invalid ROUTE-REFRESH length"@),
        },
{
    if b.len() != 4 {
        return Err(Error::Other("invalid ROUTE-REFRESH length".to_string()));
    }
    if b[2] != 0 || b[3] != 1 {
        return Ok(None);
    }
    assert(b@.take(2) =~= b@.subrange(0, 2));
    let afi: u16 = u16b(b);
    if afi == 1 && n.ipv4 {
        Ok(Some(false))
    } else if afi == 2 && n.ipv6 {
        Ok(Some(true))
    } else {
        Ok(None)
    }
}

} // verus!
