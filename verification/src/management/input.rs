//! Commands as they come over the wire.
use vstd::prelude::*;

verus! {

/// The longest command.
pub const MAX_COMMAND: usize = 512;

/// The most octets that one command may take on the wire.
pub const MAX_WIRE: usize = 8192;

/// Where in a Telnet sequence the input stands.
#[derive(Clone, Copy, Debug, PartialEq, Eq, Structural)]
pub enum Telnet {
    Data,
    /// After the octet that starts a command.
    Command,
    /// After this command, which names an option next.
    Negotiation(u8),
    /// Inside a subnegotiation.
    Sub,
    /// After an octet in a subnegotiation that may end it.
    SubEnd,
}

/// Input that is refused.
#[derive(Clone, Copy, Debug, PartialEq, Eq, Structural)]
pub enum InputError {
    TooLong,
    TooMuch,
}

impl InputError {
    /// The error in words.
    pub fn message(&self) -> (r: &'static str)
        ensures
            r@ == match *self {
                InputError::TooLong => "CLI command too long"@,
                InputError::TooMuch => "CLI input limit exceeded"@,
            },
    {
        match self {
            InputError::TooLong => "CLI command too long",
            InputError::TooMuch => "CLI input limit exceeded",
        }
    }
}

/// What one octet leads to.
#[derive(Debug)]
pub enum Step {
    More,
    /// Send this.
    Reply(Vec<u8>),
    /// A command is complete.
    Line(String),
    Fail(InputError),
}

/// What a [`Step`] says.
#[verifier::ext_equal]
pub enum Outcome {
    More,
    Reply(Seq<u8>),
    Line(Seq<char>),
    Fail(InputError),
}

impl View for Step {
    type V = Outcome;

    open spec fn view(&self) -> Outcome {
        match *self {
            Step::More => Outcome::More,
            Step::Reply(b) => Outcome::Reply(b@),
            Step::Line(s) => Outcome::Line(s@),
            Step::Fail(e) => Outcome::Fail(e),
        }
    }
}

/// Text of octets that are ASCII.
pub open spec fn ascii(b: Seq<u8>) -> Seq<char> {
    Seq::new(b.len(), |i: int| b[i] as char)
}

fn text_of(b: &Vec<u8>) -> (r: String)
    ensures
        r@ == ascii(b@),
{
    let mut s: String = "".to_string();
    proof {
        reveal_strlit("");
    }
    let mut i: usize = 0;
    while i < b.len()
        invariant
            i <= b@.len(),
            s@ =~= ascii(b@.take(i as int)),
        decreases b@.len() - i,
    {
        s.push(b[i] as char);
        i += 1;
    }
    assert(b@.take(i as int) =~= b@);
    s
}

/// An octet that a command can hold.
pub open spec fn printable(b: u8) -> bool {
    32 <= b <= 126 || b == 9
}

/// How an offered option is refused: WILL by DONT, DO by WONT. A refusal has no
/// answer, so that two sides never answer each other forever.
pub open spec fn refusal(command: u8, option: u8) -> Option<Seq<u8>> {
    if command == 251 {
        Some(seq![255u8, 254u8, option])
    } else if command == 253 {
        Some(seq![255u8, 252u8, option])
    } else {
        None
    }
}

/// What was read of a command.
#[verifier::ext_equal]
pub struct Partial {
    pub bytes: Seq<u8>,
    pub telnet: Telnet,
    pub wire: nat,
    pub skip_lf: bool,
}

/// What an octet of a command means, outside of Telnet sequences.
pub open spec fn typed(s: Partial, b: u8) -> (Partial, Outcome) {
    if b == 255 {
        (Partial { telnet: Telnet::Command, ..s }, Outcome::More)
    } else if b == 10 {
        (s, Outcome::Line(ascii(s.bytes)))
    } else if b == 13 {
        (Partial { skip_lf: true, ..s }, Outcome::Line(ascii(s.bytes)))
    } else if b == 8 || b == 127 {
        (
            Partial {
                bytes: if s.bytes.len() == 0 {
                    s.bytes
                } else {
                    s.bytes.drop_last()
                },
                ..s
            },
            Outcome::More,
        )
    } else if printable(b) {
        let next = Partial { bytes: s.bytes.push(b), ..s };
        if next.bytes.len() > MAX_COMMAND {
            (next, Outcome::Fail(InputError::TooLong))
        } else {
            (next, Outcome::More)
        }
    } else {
        (s, Outcome::More)
    }
}

/// What an octet that counts means.
pub open spec fn counted(s: Partial, b: u8) -> (Partial, Outcome) {
    match s.telnet {
        Telnet::Command => (
            Partial {
                telnet: if 251 <= b <= 254 {
                    Telnet::Negotiation(b)
                } else if b == 250 {
                    Telnet::Sub
                } else {
                    Telnet::Data
                },
                ..s
            },
            Outcome::More,
        ),
        Telnet::Negotiation(command) => (
            Partial { telnet: Telnet::Data, ..s },
            match refusal(command, b) {
                Some(r) => Outcome::Reply(r),
                None => Outcome::More,
            },
        ),
        Telnet::Sub => (
            Partial {
                telnet: if b == 255 {
                    Telnet::SubEnd
                } else {
                    Telnet::Sub
                },
                ..s
            },
            Outcome::More,
        ),
        Telnet::SubEnd => (
            Partial {
                telnet: if b == 240 {
                    Telnet::Data
                } else {
                    Telnet::Sub
                },
                ..s
            },
            Outcome::More,
        ),
        Telnet::Data => typed(s, b),
    }
}

/// What one octet leads to. The second octet of a line end is dropped.
pub open spec fn fed(s: Partial, b: u8) -> (Partial, Outcome) {
    if s.skip_lf && (b == 10 || b == 0) {
        (Partial { skip_lf: false, ..s }, Outcome::More)
    } else {
        let next = Partial { skip_lf: false, wire: s.wire + 1, ..s };
        if next.wire > MAX_WIRE {
            (next, Outcome::Fail(InputError::TooMuch))
        } else {
            counted(next, b)
        }
    }
}

/// Reads one command after the other.
#[derive(Debug)]
pub struct LineReader {
    pub bytes: Vec<u8>,
    pub telnet: Telnet,
    pub wire: usize,
    pub skip_lf: bool,
}

impl View for LineReader {
    type V = Partial;

    open spec fn view(&self) -> Partial {
        Partial {
            bytes: self.bytes@,
            telnet: self.telnet,
            wire: self.wire as nat,
            skip_lf: self.skip_lf,
        }
    }
}

impl LineReader {
    /// What is kept is printable and within bounds.
    pub open spec fn wf(self) -> bool {
        &&& self.bytes@.len() <= MAX_COMMAND
        &&& self.wire <= MAX_WIRE
        &&& forall|i: int| 0 <= i < self.bytes@.len() ==> printable(#[trigger] self.bytes@[i])
    }

    /// Nothing was read yet.
    pub fn new() -> (r: LineReader)
        ensures
            r.wf(),
            r@ == (Partial {
                bytes: Seq::empty(),
                telnet: Telnet::Data,
                wire: 0,
                skip_lf: false,
            }),
    {
        LineReader { bytes: Vec::new(), telnet: Telnet::Data, wire: 0, skip_lf: false }
    }

    /// Go on to the next command. Only the end of the last line is remembered.
    pub fn next_line(&mut self)
        ensures
            final(self).wf(),
            final(self)@ == (Partial {
                bytes: Seq::empty(),
                telnet: Telnet::Data,
                wire: 0,
                skip_lf: old(self).skip_lf,
            }),
    {
        self.bytes = Vec::new();
        self.telnet = Telnet::Data;
        self.wire = 0;
    }

    /// Take one octet.
    pub fn feed(&mut self, b: u8) -> (r: Step)
        requires
            old(self).wf(),
        ensures
            (final(self)@, r@) == fed(old(self)@, b),
            !(r is Fail) ==> final(self).wf(),
            r matches Step::Line(s) ==> s@.len() <= MAX_COMMAND && forall|i: int|
                0 <= i < s@.len() ==> is_typable(#[trigger] s@[i]),
    {
        if self.skip_lf {
            self.skip_lf = false;
            if b == 10 || b == 0 {
                return Step::More;
            }
        }
        self.wire = self.wire + 1;
        if self.wire > MAX_WIRE {
            return Step::Fail(InputError::TooMuch);
        }
        match self.telnet {
            Telnet::Command => {
                self.telnet = if 251 <= b && b <= 254 {
                    Telnet::Negotiation(b)
                } else if b == 250 {
                    Telnet::Sub
                } else {
                    Telnet::Data
                };
                Step::More
            },
            Telnet::Negotiation(command) => {
                self.telnet = Telnet::Data;
                if command == 251 || command == 253 {
                    let mut reply: Vec<u8> = Vec::new();
                    reply.push(255);
                    if command == 251 {
                        reply.push(254);
                    } else {
                        reply.push(252);
                    }
                    reply.push(b);
                    proof {
                        assert(refusal(command, b) is Some);
                        assert(reply@ =~= refusal(command, b)->0);
                    }
                    Step::Reply(reply)
                } else {
                    Step::More
                }
            },
            Telnet::Sub => {
                if b == 255 {
                    self.telnet = Telnet::SubEnd;
                }
                Step::More
            },
            Telnet::SubEnd => {
                self.telnet = if b == 240 {
                    Telnet::Data
                } else {
                    Telnet::Sub
                };
                Step::More
            },
            Telnet::Data => {
                if b == 255 {
                    self.telnet = Telnet::Command;
                    Step::More
                } else if b == 10 || b == 13 {
                    if b == 13 {
                        self.skip_lf = true;
                    }
                    let line = text_of(&self.bytes);
                    Step::Line(line)
                } else if b == 8 || b == 127 {
                    let gone = self.bytes.pop();
                    proof {
                        if gone is None {
                            assert(self.bytes@ =~= old(self).bytes@);
                        } else {
                            assert(self.bytes@ =~= old(self).bytes@.drop_last());
                        }
                    }
                    Step::More
                } else if (32 <= b && b <= 126) || b == 9 {
                    self.bytes.push(b);
                    if self.bytes.len() > MAX_COMMAND {
                        return Step::Fail(InputError::TooLong);
                    }
                    Step::More
                } else {
                    Step::More
                }
            },
        }
    }
}

/// A character that a command can hold.
pub open spec fn is_typable(c: char) -> bool {
    ' ' <= c <= '~' || c == '\t'
}

/// The answer to an offer is a refusal, and a refusal is never answered.
pub proof fn law_refusals_end_negotiation(command: u8, option: u8, again: u8)
    ensures
        refusal(command, option) matches Some(r) ==> {
            &&& r.len() == 3
            &&& r[0] == 255
            &&& r[2] == option
            &&& refusal(r[1], again) is None
        },
{
}

} // verus!
