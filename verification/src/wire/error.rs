//! What a session can fail with.
use vstd::prelude::*;

use crate::text::append_decimal;
use crate::text::decimal;

verus! {

/// An error that the peer is told of in a NOTIFICATION.
#[derive(Debug)]
pub struct ProtocolError {
    pub code: u8,
    pub subcode: u8,
    pub data: Vec<u8>,
    pub reason: &'static str,
}

/// What a [`ProtocolError`] says.
#[verifier::ext_equal]
pub struct Fault {
    pub code: u8,
    pub subcode: u8,
    pub data: Seq<u8>,
    pub reason: Seq<char>,
}

impl View for ProtocolError {
    type V = Fault;

    open spec fn view(&self) -> Fault {
        Fault {
            code: self.code,
            subcode: self.subcode,
            data: self.data@,
            reason: self.reason@,
        }
    }
}

/// A fault that carries no data.
pub open spec fn fault(code: u8, subcode: u8, reason: Seq<char>) -> Fault {
    Fault { code, subcode, data: Seq::empty(), reason }
}

/// An error that carries no data.
pub fn err(code: u8, subcode: u8, reason: &'static str) -> (r: ProtocolError)
    ensures
        r@ == fault(code, subcode, reason@),
{
    ProtocolError { code, subcode, data: Vec::new(), reason }
}

/// Nothing where `ok`, an error without data otherwise.
pub fn require(ok: bool, code: u8, subcode: u8, reason: &'static str) -> (r: Result<
    (),
    ProtocolError,
>)
    ensures
        r is Ok <==> ok,
        r matches Err(e) ==> e@ == fault(code, subcode, reason@),
{
    if ok {
        Ok(())
    } else {
        Err(err(code, subcode, reason))
    }
}

impl ProtocolError {
    /// The error as it is logged: code, subcode and reason.
    pub open spec fn text(self) -> Seq<char> {
        "BGP "@ + decimal(self.code as nat) + "."@ + decimal(self.subcode as nat) + ": "@
            + self.reason@
    }

    /// Render the error for a log.
    pub fn message(&self) -> (r: String)
        ensures
            r@ == self.text(),
    {
        let mut s: String = "BGP ".to_string();
        append_decimal(&mut s, self.code as u64);
        s.append(".");
        append_decimal(&mut s, self.subcode as u64);
        s.append(": ");
        s.append(self.reason);
        s
    }
}

/// Why a session ends.
#[derive(Debug)]
pub enum Error {
    /// An error to report to the peer.
    Protocol(ProtocolError),
    /// Anything else; the peer is not told.
    Other(String),
}

impl Error {
    /// The error to report to the peer, if there is one.
    pub fn protocol(&self) -> (r: Option<&ProtocolError>)
        ensures
            r == match *self {
                Error::Protocol(e) => Some(&e),
                Error::Other(_) => None,
            },
    {
        match self {
            Error::Protocol(e) => Some(e),
            Error::Other(_) => None,
        }
    }

    /// The error as it is logged.
    pub open spec fn text(self) -> Seq<char> {
        match self {
            Error::Protocol(e) => e.text(),
            Error::Other(s) => s@,
        }
    }

    /// Render the error for a log.
    pub fn message(&self) -> (r: String)
        ensures
            r@ == self.text(),
    {
        match self {
            Error::Protocol(e) => e.message(),
            Error::Other(s) => s.clone(),
        }
    }
}

/// The states in which a message can be unexpected.
#[derive(Clone, Copy, Debug, PartialEq, Eq, Structural)]
pub enum FsmState {
    OpenSent,
    OpenConfirm,
    Established,
}

impl FsmState {
    /// The subcode of RFC 6608 for an unexpected message in this state.
    pub open spec fn spec_subcode(self) -> u8 {
        match self {
            FsmState::OpenSent => 1,
            FsmState::OpenConfirm => 2,
            FsmState::Established => 3,
        }
    }

    #[verifier::when_used_as_spec(spec_subcode)]
    pub fn subcode(self) -> (r: u8)
        ensures
            r == self.subcode(),
    {
        match self {
            FsmState::OpenSent => 1,
            FsmState::OpenConfirm => 2,
            FsmState::Established => 3,
        }
    }
}

/// What to tell of a message of this kind and body that a state does not expect.
pub open spec fn unexpected_is(state: FsmState, kind: u8, body: Seq<u8>, e: Error) -> bool {
    if kind == 3 {
        e matches Error::Other(s) && s@ == if body.len() >= 2 {
            "peer sent NOTIFICATION code="@ + decimal(body[0] as nat) + " subcode="@ + decimal(
                body[1] as nat,
            )
        } else {
            "peer sent truncated NOTIFICATION"@
        }
    } else {
        e matches Error::Protocol(p) && p@ == (Fault {
            code: 5,
            subcode: state.subcode(),
            data: seq![kind],
            reason: "unexpected message in BGP state"@,
        })
    }
}

/// Describe a peer NOTIFICATION without replying, or include state and type in an error.
pub fn unexpected(state: FsmState, kind: u8, body: &[u8]) -> (r: Error)
    ensures
        unexpected_is(state, kind, body@, r),
{
    if kind == 3 {
        if body.len() >= 2 {
            let mut s: String = "peer sent NOTIFICATION code=".to_string();
            append_decimal(&mut s, body[0] as u64);
            s.append(" subcode=");
            append_decimal(&mut s, body[1] as u64);
            Error::Other(s)
        } else {
            Error::Other("peer sent truncated NOTIFICATION".to_string())
        }
    } else {
        let mut data: Vec<u8> = Vec::new();
        data.push(kind);
        let e = ProtocolError {
            code: 5,
            subcode: state.subcode(),
            data,
            reason: "unexpected message in BGP state",
        };
        assert(e@.data =~= seq![kind]);
        Error::Protocol(e)
    }
}

/// An error is logged by its code, its subcode and its reason. Only what a peer has done
/// wrong is told to it; the rest is logged as it is.
pub proof fn law_errors_are_logged(
    e: &Error,
    told: Option<&ProtocolError>,
    logged: String,
    p: &ProtocolError,
    line: String,
)
    requires
        call_ensures(Error::protocol, (e,), told),
        call_ensures(Error::message, (e,), logged),
        call_ensures(ProtocolError::message, (p,), line),
    ensures
        line@ == "BGP "@ + decimal(p.code as nat) + "."@ + decimal(p.subcode as nat) + ": "@
            + p.reason@,
        told is Some <==> *e is Protocol,
        *e matches Error::Protocol(q) ==> told == Some(&q) && (q == *p ==> logged@ == line@),
        *e matches Error::Other(s) ==> logged@ == s@,
{
}

/// An error without data says what it is given, and comes exactly where it is asked for.
pub proof fn law_required_or_an_error(
    ok: bool,
    code: u8,
    subcode: u8,
    reason: &'static str,
    r: Result<(), ProtocolError>,
    e: ProtocolError,
)
    requires
        call_ensures(require, (ok, code, subcode, reason), r),
        call_ensures(err, (code, subcode, reason), e),
    ensures
        r is Ok <==> ok,
        r matches Err(f) ==> f@ == e@,
        e.code == code && e.subcode == subcode && e.reason@ == reason@ && e.data@.len() == 0,
{
}

/// A peer that sends a NOTIFICATION is not answered, and what it said is logged. Any
/// other message that comes at the wrong time is answered by its type and the state.
pub proof fn law_wrong_time_is_reported(state: FsmState, kind: u8, body: &[u8], e: Error)
    requires
        call_ensures(unexpected, (state, kind, body), e),
    ensures
        kind == 3 && body@.len() >= 2 ==> (e matches Error::Other(s) && s@
            == "peer sent NOTIFICATION code="@ + decimal(body@[0] as nat) + " subcode="@ + decimal(
            body@[1] as nat,
        )),
        kind == 3 && body@.len() < 2 ==> (e matches Error::Other(s) && s@
            == "peer sent truncated NOTIFICATION"@),
        kind != 3 ==> (e matches Error::Protocol(p) && p.code == 5 && p.data@ == seq![kind]
            && p.reason@ == "unexpected message in BGP state"@),
        kind != 3 && state is OpenSent ==> (e matches Error::Protocol(p) && p.subcode == 1),
        kind != 3 && state is OpenConfirm ==> (e matches Error::Protocol(p) && p.subcode == 2),
        kind != 3 && state is Established ==> (e matches Error::Protocol(p) && p.subcode == 3),
{
}

} // verus!
