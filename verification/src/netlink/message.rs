//! Netlink datagrams: how they divide into messages, and what can be wrong.
use vstd::prelude::*;

use crate::bytes::lemma_be2;
use crate::bytes::lemma_pow256_small;
use crate::bytes::ByteOrder;

verus! {

/// Octets of a message header.
pub const HEADER: usize = 16;

/// The message kinds that a route dump holds or starts with.
pub const NLMSG_ERROR: u16 = 2;

pub const NLMSG_DONE: u16 = 3;

pub const NLMSG_OVERRUN: u16 = 4;

pub const RTM_NEWROUTE: u16 = 24;

pub const RTM_GETROUTE: u16 = 26;

/// Ask for a dump: `NLM_F_REQUEST` and `NLM_F_DUMP`.
pub const REQUEST_DUMP: u16 = 0x301;

/// Address families, as the kernel numbers them.
pub const AF_INET: u8 = 2;

pub const AF_INET6: u8 = 10;

/// The route attributes that matter here.
pub const RTA_DST: u16 = 1;

pub const RTA_TABLE: u16 = 15;

/// What can be wrong with what the kernel sends.
#[derive(Clone, Copy, Debug, PartialEq, Eq, Structural)]
pub enum NetlinkError {
    ShortHeader,
    MessageLength,
    MessagePadding,
    ShortRoute,
    PrefixLength,
    ShortAttribute,
    AttributeLength,
    Destination,
    Table,
    AttributePadding,
    MissingDestination,
    ShortStatus,
    /// The dump ended with this system error.
    DumpFailed(i32),
    Sequence,
    Interrupted,
    ShortError,
    /// The kernel answered with this system error.
    Dump(i32),
    Overrun,
    TooManyPrefixes,
    EmptyDatagram,
    Stopping,
    Deadline,
    LossDuringDump,
    LossAfterDump,
    Truncated,
    Sender,
}

impl NetlinkError {
    /// What the error says, without the words for a system error.
    pub open spec fn text(self) -> Seq<char> {
        match self {
            NetlinkError::ShortHeader => "short netlink header"@,
            NetlinkError::MessageLength => "invalid netlink message length"@,
            NetlinkError::MessagePadding => "short netlink padding"@,
            NetlinkError::ShortRoute => "short rtmsg"@,
            NetlinkError::PrefixLength => "invalid route prefix length"@,
            NetlinkError::ShortAttribute => "short route attribute"@,
            NetlinkError::AttributeLength => "invalid route attribute length"@,
            NetlinkError::Destination => "invalid RTA_DST"@,
            NetlinkError::Table => "invalid RTA_TABLE"@,
            NetlinkError::AttributePadding => "short route attribute padding"@,
            NetlinkError::MissingDestination => "missing route destination"@,
            NetlinkError::ShortStatus => "short netlink dump status"@,
            NetlinkError::DumpFailed(_) => "netlink dump failed: "@,
            NetlinkError::Sequence => "unexpected dump sequence"@,
            NetlinkError::Interrupted => "interrupted netlink dump"@,
            NetlinkError::ShortError => "short NLMSG_ERROR"@,
            NetlinkError::Dump(_) => "netlink dump: "@,
            NetlinkError::Overrun => "netlink dump overrun"@,
            NetlinkError::TooManyPrefixes => "max_prefixes exceeded; refusing partial export"@,
            NetlinkError::EmptyDatagram => "empty dump datagram"@,
            NetlinkError::Stopping => "stopping"@,
            NetlinkError::Deadline => "netlink dump deadline exceeded"@,
            NetlinkError::LossDuringDump => "netlink notification loss during dump"@,
            NetlinkError::LossAfterDump => "netlink notification loss at end of dump"@,
            NetlinkError::Truncated => "truncated netlink datagram"@,
            NetlinkError::Sender => "non-kernel netlink sender"@,
        }
    }

    /// The error in words. Where [`NetlinkError::system_error`] gives a number,
    /// the system's words for it follow.
    pub fn message(&self) -> (r: &'static str)
        ensures
            r@ == self.text(),
    {
        match self {
            NetlinkError::ShortHeader => "short netlink header",
            NetlinkError::MessageLength => "invalid netlink message length",
            NetlinkError::MessagePadding => "short netlink padding",
            NetlinkError::ShortRoute => "short rtmsg",
            NetlinkError::PrefixLength => "invalid route prefix length",
            NetlinkError::ShortAttribute => "short route attribute",
            NetlinkError::AttributeLength => "invalid route attribute length",
            NetlinkError::Destination => "invalid RTA_DST",
            NetlinkError::Table => "invalid RTA_TABLE",
            NetlinkError::AttributePadding => "short route attribute padding",
            NetlinkError::MissingDestination => "missing route destination",
            NetlinkError::ShortStatus => "short netlink dump status",
            NetlinkError::DumpFailed(_) => "netlink dump failed: ",
            NetlinkError::Sequence => "unexpected dump sequence",
            NetlinkError::Interrupted => "interrupted netlink dump",
            NetlinkError::ShortError => "short NLMSG_ERROR",
            NetlinkError::Dump(_) => "netlink dump: ",
            NetlinkError::Overrun => "netlink dump overrun",
            NetlinkError::TooManyPrefixes => "max_prefixes exceeded; refusing partial export",
            NetlinkError::EmptyDatagram => "empty dump datagram",
            NetlinkError::Stopping => "stopping",
            NetlinkError::Deadline => "netlink dump deadline exceeded",
            NetlinkError::LossDuringDump => "netlink notification loss during dump",
            NetlinkError::LossAfterDump => "netlink notification loss at end of dump",
            NetlinkError::Truncated => "truncated netlink datagram",
            NetlinkError::Sender => "non-kernel netlink sender",
        }
    }

    /// The number of the system error behind this one, if there is one.
    pub fn system_error(&self) -> (r: Option<i32>)
        ensures
            r == match *self {
                NetlinkError::DumpFailed(n) | NetlinkError::Dump(n) => Some(n),
                _ => None,
            },
    {
        match self {
            NetlinkError::DumpFailed(n) | NetlinkError::Dump(n) => Some(*n),
            _ => None,
        }
    }
}

/// Calls `u16::to_ne_bytes`, which lays the number out least or most significant
/// byte first. Which of the two is the machine's; nothing is said of that.
#[verifier::external_body]
fn ne_bytes(v: u16) -> (r: [u8; 2])
    ensures
        r@ == ByteOrder::Little.bytes(v as nat, 2) || r@ == ByteOrder::Big.bytes(v as nat, 2),
{
    v.to_ne_bytes()
}

/// The order in which the number one is laid out like this.
pub fn order_of(one: [u8; 2]) -> (r: ByteOrder)
    ensures
        r == if one@[0] == 1 {
            ByteOrder::Little
        } else {
            ByteOrder::Big
        },
        one@ == ByteOrder::Little.bytes(1, 2) || one@ == ByteOrder::Big.bytes(1, 2) ==> one@
            == r.bytes(1, 2),
{
    proof {
        lemma_be2(1);
    }
    if one[0] == 1 {
        ByteOrder::Little
    } else {
        ByteOrder::Big
    }
}

/// The byte order of this machine. Either order may come back.
pub fn native() -> (r: ByteOrder) {
    order_of(ne_bytes(1))
}

/// A length rounded up to a multiple of four.
pub open spec fn align(n: nat) -> nat {
    (n + 3) / 4 * 4
}

/// How much is missing to a multiple of four.
pub fn padding(n: usize) -> (r: usize)
    ensures
        n + r == align(n as nat),
        r < 4,
{
    (4 - n % 4) % 4
}

/// One message.
#[derive(Debug)]
pub struct Message<'a> {
    pub kind: u16,
    pub flags: u16,
    pub seq: u32,
    pub payload: &'a [u8],
}

/// What a [`Message`] says.
#[verifier::ext_equal]
pub struct Envelope {
    pub kind: u16,
    pub flags: u16,
    pub seq: u32,
    pub payload: Seq<u8>,
}

impl<'a> View for Message<'a> {
    type V = Envelope;

    open spec fn view(&self) -> Envelope {
        Envelope { kind: self.kind, flags: self.flags, seq: self.seq, payload: self.payload@ }
    }
}

/// The message of `len` octets at the start of `b`.
pub open spec fn envelope(order: ByteOrder, b: Seq<u8>, len: nat) -> Envelope {
    Envelope {
        kind: order.value(b.subrange(4, 6)) as u16,
        flags: order.value(b.subrange(6, 8)) as u16,
        seq: order.value(b.subrange(8, 12)) as u32,
        payload: b.subrange(16, len as int),
    }
}

/// The messages of a datagram up to its end or to the first fault, and that fault.
pub open spec fn split(order: ByteOrder, b: Seq<u8>) -> (Seq<Envelope>, Option<NetlinkError>)
    decreases b.len(),
{
    if b.len() == 0 {
        (Seq::empty(), None)
    } else if b.len() < 16 {
        (Seq::empty(), Some(NetlinkError::ShortHeader))
    } else {
        let len = order.value(b.subrange(0, 4));
        if len < 16 || len > b.len() {
            (Seq::empty(), Some(NetlinkError::MessageLength))
        } else if len == b.len() {
            (seq![envelope(order, b, len)], None)
        } else if align(len) > b.len() {
            (seq![envelope(order, b, len)], Some(NetlinkError::MessagePadding))
        } else {
            let rest = split(order, b.skip(align(len) as int));
            (seq![envelope(order, b, len)] + rest.0, rest.1)
        }
    }
}

/// What a list of messages says.
pub open spec fn envelopes(v: Seq<Message>) -> Seq<Envelope> {
    Seq::new(v.len(), |i: int| v[i]@)
}

/// A datagram, divided.
#[derive(Debug)]
pub struct Split<'a> {
    pub messages: Vec<Message<'a>>,
    pub fault: Option<NetlinkError>,
}

impl<'a> View for Split<'a> {
    type V = (Seq<Envelope>, Option<NetlinkError>);

    open spec fn view(&self) -> (Seq<Envelope>, Option<NetlinkError>) {
        (envelopes(self.messages@), self.fault)
    }
}

/// Divide a datagram whose numbers have the given byte order.
pub fn messages_in<'a>(order: ByteOrder, bytes: &'a [u8]) -> (r: Split<'a>)
    ensures
        r@ == split(order, bytes@),
{
    let mut messages: Vec<Message<'a>> = Vec::new();
    let mut rest = bytes;
    while rest.len() > 0
        invariant
            split(order, bytes@) == (
                envelopes(messages@) + split(order, rest@).0,
                split(order, rest@).1,
            ),
        decreases rest@.len(),
    {
        let ghost before = envelopes(messages@);
        let ghost now = rest@;
        if rest.len() < HEADER {
            assert(before + split(order, rest@).0 =~= before);
            return Split { messages, fault: Some(NetlinkError::ShortHeader) };
        }
        let len: usize = order.u32n(rest) as usize;
        if len < HEADER || len > rest.len() {
            assert(before + split(order, rest@).0 =~= before);
            return Split { messages, fault: Some(NetlinkError::MessageLength) };
        }
        let kind_at = &rest[4..rest.len()];
        let flags_at = &rest[6..rest.len()];
        let seq_at = &rest[8..rest.len()];
        proof {
            assert(kind_at@.subrange(0, 2) =~= rest@.subrange(4, 6));
            assert(flags_at@.subrange(0, 2) =~= rest@.subrange(6, 8));
            assert(seq_at@.subrange(0, 4) =~= rest@.subrange(8, 12));
        }
        let m = Message {
            kind: order.u16n(kind_at),
            flags: order.u16n(flags_at),
            seq: order.u32n(seq_at),
            payload: &rest[HEADER..len],
        };
        messages.push(m);
        proof {
            assert(m@ == envelope(order, now, len as nat));
            assert(envelopes(messages@) =~= before.push(m@));
        }
        if len == rest.len() {
            assert(envelopes(messages@) =~= before + split(order, now).0);
            return Split { messages, fault: None };
        }
        let pad: usize = padding(len);
        if pad > rest.len() - len {
            assert(envelopes(messages@) =~= before + split(order, now).0);
            return Split { messages, fault: Some(NetlinkError::MessagePadding) };
        }
        rest = &rest[len + pad..rest.len()];
        proof {
            assert(rest@ =~= now.skip(align(len as nat) as int));
            assert(envelopes(messages@) + split(order, rest@).0 =~= before + split(order, now).0);
        }
    }
    assert(envelopes(messages@) + split(order, rest@).0 =~= envelopes(messages@));
    Split { messages, fault: None }
}

/// Divide a datagram of this machine.
pub fn messages<'a>(bytes: &'a [u8]) -> (r: Split<'a>)
    ensures
        exists|order: ByteOrder| r@ == split(order, bytes@),
{
    messages_in(native(), bytes)
}

/// Zeros.
pub open spec fn zeros(n: nat) -> Seq<u8> {
    Seq::new(n, |i: int| 0u8)
}

fn append_zeros(out: &mut Vec<u8>, n: usize)
    ensures
        final(out)@ == old(out)@ + zeros(n as nat),
{
    let mut i: usize = 0;
    while i < n
        invariant
            i <= n,
            out@ =~= old(out)@ + zeros(i as nat),
        decreases n - i,
    {
        out.push(0);
        i += 1;
    }
}

/// What a request for one table of one family carries: the route header, all
/// zero but for the family, and the table.
pub open spec fn request_payload(order: ByteOrder, family: u8, table: u32) -> Seq<u8> {
    seq![family] + zeros(11) + order.bytes(8, 2) + order.bytes(RTA_TABLE as nat, 2)
        + order.bytes(table as nat, 4)
}

/// A request for one table of one family.
pub open spec fn request_message(order: ByteOrder, seq: u32, family: u8, table: u32) -> Seq<u8> {
    order.bytes(36, 4) + order.bytes(RTM_GETROUTE as nat, 2) + order.bytes(REQUEST_DUMP as nat, 2)
        + order.bytes(seq as nat, 4) + zeros(4) + request_payload(order, family, table)
}

/// Ask the kernel to dump one table of one family.
pub fn request(order: ByteOrder, seq: u32, family: u8, table: u32) -> (r: Vec<u8>)
    ensures
        r@ == request_message(order, seq, family, table),
{
    let mut out: Vec<u8> = Vec::new();
    order.append32(&mut out, 36);
    order.append16(&mut out, RTM_GETROUTE);
    order.append16(&mut out, REQUEST_DUMP);
    order.append32(&mut out, seq);
    append_zeros(&mut out, 4);
    out.push(family);
    append_zeros(&mut out, 11);
    order.append16(&mut out, 8);
    order.append16(&mut out, RTA_TABLE);
    order.append32(&mut out, table);
    assert(out@ =~= request_message(order, seq, family, table));
    out
}

/// A request is one complete message, 36 octets long, that carries its number,
/// asks for a dump of routes and names the family and the table.
pub proof fn law_request_is_one_message(order: ByteOrder, seq: u32, family: u8, table: u32)
    ensures
        request_message(order, seq, family, table).len() == 36,
        split(order, request_message(order, seq, family, table)) == (
            seq![
                Envelope {
                    kind: RTM_GETROUTE,
                    flags: REQUEST_DUMP,
                    seq,
                    payload: request_payload(order, family, table),
                },
            ],
            None::<NetlinkError>,
        ),
{
    lemma_pow256_small();
    order.lemma_roundtrip(36, 4);
    order.lemma_roundtrip(RTM_GETROUTE as nat, 2);
    order.lemma_roundtrip(REQUEST_DUMP as nat, 2);
    order.lemma_roundtrip(seq as nat, 4);
    order.lemma_roundtrip(8, 2);
    order.lemma_roundtrip(RTA_TABLE as nat, 2);
    order.lemma_roundtrip(table as nat, 4);
    let b = request_message(order, seq, family, table);
    assert(b.len() == 36);
    assert(b.subrange(0, 4) =~= order.bytes(36, 4));
    assert(b.subrange(4, 6) =~= order.bytes(RTM_GETROUTE as nat, 2));
    assert(b.subrange(6, 8) =~= order.bytes(REQUEST_DUMP as nat, 2));
    assert(b.subrange(8, 12) =~= order.bytes(seq as nat, 4));
    assert(b.subrange(16, 36) =~= request_payload(order, family, table));
}

} // verus!
