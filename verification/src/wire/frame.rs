//! Message framing: the marker, the length and the type.
use vstd::prelude::*;

use crate::bytes::{append, append_be, be, be_value, lemma_be2, lemma_be_len, u16b};
use crate::bytes::lemma_be_value_of_be;
use crate::wire::error::{require, fault, Fault, ProtocolError};

verus! {

/// The longest message, header included.
pub const MAX_MESSAGE: usize = 4096;

/// The longest batch of prefixes in one UPDATE. Even a full IPv6 batch with
/// both next hops stays within [`MAX_MESSAGE`].
pub const MAX_UPDATE_PREFIXES: usize = 200;

pub const OPEN: u8 = 1;

pub const UPDATE: u8 = 2;

pub const NOTIFICATION: u8 = 3;

pub const KEEPALIVE: u8 = 4;

pub const ROUTE_REFRESH: u8 = 5;

/// Sixteen bytes of ones.
pub open spec fn marker() -> Seq<u8> {
    Seq::new(16, |i: int| 255u8)
}

/// The message of a type and a body.
pub open spec fn message(kind: u8, body: Seq<u8>) -> Seq<u8> {
    marker() + be(body.len() + 19, 2) + seq![kind] + body
}

/// Wrap a body in a BGP header with the standard marker and supplied message type.
pub fn frame(kind: u8, body: &[u8]) -> (r: Vec<u8>)
    requires
        body@.len() + 19 <= MAX_MESSAGE,
    ensures
        r@ == message(kind, body@),
{
    let mut out: Vec<u8> = Vec::with_capacity(body.len() + 19);
    let mut i: usize = 0;
    while i < 16
        invariant
            i <= 16,
            out@ =~= marker().take(i as int),
        decreases 16 - i,
    {
        out.push(255);
        i += 1;
    }
    append_be(&mut out, (body.len() + 19) as u128, 2);
    out.push(kind);
    append(&mut out, body);
    assert(out@ =~= message(kind, body@));
    out
}

/// The body of a NOTIFICATION: code, subcode, and as much data as fits.
pub open spec fn notification_body(code: u8, subcode: u8, data: Seq<u8>) -> Seq<u8> {
    seq![code, subcode] + if data.len() <= MAX_MESSAGE - 21 {
        data
    } else {
        data.take(MAX_MESSAGE - 21)
    }
}

/// Encode a NOTIFICATION, truncating error data to fit the standard message limit.
pub fn notification(code: u8, subcode: u8, data: &[u8]) -> (r: Vec<u8>)
    ensures
        r@ == message(NOTIFICATION, notification_body(code, subcode, data@)),
{
    let mut b: Vec<u8> = Vec::new();
    b.push(code);
    b.push(subcode);
    let n: usize = if data.len() <= MAX_MESSAGE - 21 {
        data.len()
    } else {
        MAX_MESSAGE - 21
    };
    append(&mut b, &data[0..n]);
    assert(b@ =~= notification_body(code, subcode, data@));
    frame(NOTIFICATION, &b)
}

/// The body of an empty UPDATE that ends the initial table of a family.
pub open spec fn end_of_rib_body(v6: bool) -> Seq<u8> {
    if v6 {
        seq![0u8, 0, 0, 6, 0x80, 15, 3, 0, 2, 1]
    } else {
        seq![0u8, 0, 0, 0]
    }
}

/// Encode an empty UPDATE marking end of RIB for IPv6 when `v6`, otherwise IPv4.
pub fn end_of_rib(v6: bool) -> (r: Vec<u8>)
    ensures
        r@ == message(UPDATE, end_of_rib_body(v6)),
{
    let mut b: Vec<u8> = Vec::new();
    if v6 {
        let body: [u8; 10] = [0, 0, 0, 6, 0x80, 15, 3, 0, 2, 1];
        append(&mut b, &body);
    } else {
        let body: [u8; 4] = [0, 0, 0, 0];
        append(&mut b, &body);
    }
    assert(b@ =~= end_of_rib_body(v6));
    frame(UPDATE, &b)
}

/// Whether a message of this type may have this length, header included.
pub open spec fn length_fits(kind: u8, len: nat) -> bool {
    if kind == OPEN {
        len >= 29
    } else if kind == UPDATE {
        len >= 23
    } else if kind == NOTIFICATION {
        len >= 21
    } else if kind == KEEPALIVE {
        len == 19
    } else {
        kind == ROUTE_REFRESH && len == 23
    }
}

/// What a header of nineteen bytes announces: the type, and the length of the body.
pub open spec fn header(h: Seq<u8>) -> Result<(u8, nat), Fault> {
    let length = h.subrange(16, 18);
    let len = be_value(length);
    let kind = h[18];
    if h.take(16) != marker() {
        Err(fault(1, 1, "invalid marker"@))
    } else if !(19 <= len <= MAX_MESSAGE) {
        Err(Fault { code: 1, subcode: 2, data: length, reason: "invalid message length"@ })
    } else if !(1 <= kind <= 5) {
        Err(Fault { code: 1, subcode: 3, data: seq![kind], reason: "invalid message type"@ })
    } else if !length_fits(kind, len) {
        Err(
            Fault {
                code: 1,
                subcode: 2,
                data: length,
                reason: "invalid length for message type"@,
            },
        )
    } else {
        Ok((kind, (len - 19) as nat))
    }
}

/// Whether a result of [`check_header`] or the like says what `spec` says.
pub open spec fn agrees<T>(r: Result<T, ProtocolError>, spec: Result<T, Fault>) -> bool {
    match (r, spec) {
        (Ok(a), Ok(b)) => a == b,
        (Err(e), Err(f)) => e@ == f,
        _ => false,
    }
}

/// Validate marker, length and type of a header before its body is read.
/// Returns the type and the number of body bytes that follow.
pub fn check_header(h: &[u8]) -> (r: Result<(u8, usize), ProtocolError>)
    requires
        h@.len() == 19,
    ensures
        match r {
            Ok((kind, len)) => header(h@) == Ok::<(u8, nat), Fault>((kind, len as nat)),
            Err(e) => header(h@) == Err::<(u8, nat), Fault>(e@),
        },
{
    let mut marked: bool = true;
    let mut i: usize = 0;
    while i < 16
        invariant
            i <= 16,
            h@.len() == 19,
            marked == forall|j: int| 0 <= j < i ==> h@[j] == 255u8,
        decreases 16 - i,
    {
        if h[i] != 255 {
            marked = false;
        }
        i += 1;
    }
    proof {
        if marked {
            assert(h@.take(16) =~= marker());
        } else {
            let j = choose|j: int| 0 <= j < 16 && h@[j] != 255u8;
            assert(h@.take(16)[j] != marker()[j]);
        }
    }
    if let Err(e) = require(marked, 1, 1, "invalid marker") {
        return Err(e);
    }
    let len: usize = u16b(&h[16..18]) as usize;
    assert(h@.subrange(16, 18).subrange(0, 2) =~= h@.subrange(16, 18));
    let kind: u8 = h[18];
    let mut data: Vec<u8> = Vec::new();
    if len < 19 || len > MAX_MESSAGE {
        append(&mut data, &h[16..18]);
        assert(data@ =~= h@.subrange(16, 18));
        return Err(
            ProtocolError { code: 1, subcode: 2, data, reason: "invalid message length" },
        );
    }
    if kind < 1 || kind > 5 {
        data.push(kind);
        assert(data@ =~= seq![kind]);
        return Err(ProtocolError { code: 1, subcode: 3, data, reason: "invalid message type" });
    }
    let fits: bool = if kind == OPEN {
        len >= 29
    } else if kind == UPDATE {
        len >= 23
    } else if kind == NOTIFICATION {
        len >= 21
    } else if kind == KEEPALIVE {
        len == 19
    } else {
        len == 23
    };
    if !fits {
        append(&mut data, &h[16..18]);
        assert(data@ =~= h@.subrange(16, 18));
        return Err(
            ProtocolError {
                code: 1,
                subcode: 2,
                data,
                reason: "invalid length for message type",
            },
        );
    }
    Ok((kind, len - 19))
}

pub proof fn lemma_message_len(kind: u8, body: Seq<u8>)
    ensures
        message(kind, body).len() == body.len() + 19,
        message(kind, body).skip(19) =~= body,
{
    lemma_be_len(body.len() + 19, 2);
}

/// A message of an acceptable type and length is read back as it was framed:
/// its header announces the type and the length of the body, and the body follows.
pub proof fn law_frame_is_read_back(kind: u8, body: Seq<u8>)
    requires
        body.len() + 19 <= MAX_MESSAGE,
        1 <= kind <= 5,
        length_fits(kind, body.len() + 19),
    ensures
        header(message(kind, body).take(19)) == Ok::<(u8, nat), Fault>((kind, body.len())),
        message(kind, body).skip(19) == body,
{
    let m = message(kind, body);
    let h = m.take(19);
    lemma_message_len(kind, body);
    lemma_be2(body.len() + 19);
    assert(h.take(16) =~= marker());
    assert(h.subrange(16, 18) =~= be(body.len() + 19, 2));
    lemma_be_value_of_be(body.len() + 19, 2);
    assert(h[18] == kind);
}

/// Every NOTIFICATION and every end-of-RIB marker has a length that the
/// header check accepts.
pub proof fn law_fixed_messages_are_acceptable(code: u8, subcode: u8, data: Seq<u8>, v6: bool)
    ensures
        notification_body(code, subcode, data).len() + 19 <= MAX_MESSAGE,
        length_fits(NOTIFICATION, notification_body(code, subcode, data).len() + 19),
        length_fits(UPDATE, end_of_rib_body(v6).len() + 19),
        length_fits(KEEPALIVE, 19),
{
}

/// What the octets read so far amount to.
#[derive(Debug)]
pub enum Frame {
    /// This many more are needed before more can be said.
    Needs(usize),
    /// A message of this type, with this body.
    Complete(u8, Vec<u8>),
}

/// What a [`Frame`] says.
#[verifier::ext_equal]
pub enum Framed {
    Needs(nat),
    Complete(u8, Seq<u8>),
}

impl View for Frame {
    type V = Framed;

    open spec fn view(&self) -> Framed {
        match *self {
            Frame::Needs(n) => Framed::Needs(n as nat),
            Frame::Complete(kind, body) => Framed::Complete(kind, body@),
        }
    }
}

/// The message that starts a run of octets, or how many more are needed. What a
/// header shows to be wrong is found before any octet of the body is asked for.
pub open spec fn framed(b: Seq<u8>) -> Result<Framed, Fault> {
    if b.len() < 19 {
        Ok(Framed::Needs((19 - b.len()) as nat))
    } else {
        match header(b.take(19)) {
            Err(f) => Err(f),
            Ok((kind, len)) => if b.len() < 19 + len {
                Ok(Framed::Needs((19 + len - b.len()) as nat))
            } else {
                Ok(Framed::Complete(kind, b.subrange(19, 19 + len as int)))
            },
        }
    }
}

/// Take a message off the octets read so far.
pub fn read_frame(b: &[u8]) -> (r: Result<Frame, ProtocolError>)
    ensures
        match r {
            Ok(f) => framed(b@) == Ok::<Framed, Fault>(f@),
            Err(e) => framed(b@) == Err::<Framed, Fault>(e@),
        },
{
    if b.len() < 19 {
        return Ok(Frame::Needs(19 - b.len()));
    }
    let h = &b[0..19];
    assert(h@ =~= b@.take(19));
    match check_header(h) {
        Err(e) => Err(e),
        Ok((kind, len)) => {
            if b.len() - 19 < len {
                return Ok(Frame::Needs(len - (b.len() - 19)));
            }
            let mut body: Vec<u8> = Vec::new();
            append(&mut body, &b[19..19 + len]);
            assert(body@ =~= b@.subrange(19, 19 + len));
            Ok(Frame::Complete(kind, body))
        },
    }
}

/// However a message is cut up on its way, it is read back: any part of it asks
/// for no more than what is missing, and the whole gives its type and body.
pub proof fn law_fragments_are_put_together(kind: u8, body: Seq<u8>, n: int)
    requires
        body.len() + 19 <= MAX_MESSAGE,
        1 <= kind <= 5,
        length_fits(kind, body.len() + 19),
        0 <= n <= body.len() + 19,
    ensures
        ({
            let m = message(kind, body);
            framed(m.take(n)) == if n < m.len() {
                Ok::<Framed, Fault>(
                    Framed::Needs(
                        if n < 19 {
                            (19 - n) as nat
                        } else {
                            (m.len() - n) as nat
                        },
                    ),
                )
            } else {
                Ok::<Framed, Fault>(Framed::Complete(kind, body))
            }
        }),
{
    let m = message(kind, body);
    law_frame_is_read_back(kind, body);
    lemma_message_len(kind, body);
    if n >= 19 {
        assert(m.take(n).take(19) =~= m.take(19));
        if n == m.len() {
            assert(m.take(n).subrange(19, n) =~= body);
        }
    }
}

} // verus!
