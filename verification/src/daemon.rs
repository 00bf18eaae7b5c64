//! Running in the background: log events for syslog, and when to restart or stop.
use vstd::prelude::*;

verus! {

/// How grave a log event is.
#[derive(Clone, Copy, Debug, PartialEq, Eq, Structural)]
pub enum Level {
    Error,
    Warn,
    Info,
    Debug,
    Trace,
}

/// The syslog priority of a level.
pub fn priority(level: Level) -> (r: i32)
    ensures
        r == match level {
            Level::Error => 3,
            Level::Warn => 4,
            Level::Info => 6,
            Level::Debug | Level::Trace => 7int,
        },
{
    match level {
        Level::Error => 3,
        Level::Warn => 4,
        Level::Info => 6,
        Level::Debug | Level::Trace => 7,
    }
}

/// Octets with every NUL replaced.
pub open spec fn without_nul(b: Seq<u8>) -> Seq<u8> {
    Seq::new(
        b.len(),
        |i: int|
            if b[i] == 0 {
                63u8
            } else {
                b[i]
            },
    )
}

/// Buffer an event, replacing NUL bytes so it can be passed to syslog as a C string.
pub fn buffer_event(out: &mut Vec<u8>, bytes: &[u8])
    ensures
        final(out)@ == old(out)@ + without_nul(bytes@),
{
    let mut i: usize = 0;
    while i < bytes.len()
        invariant
            i <= bytes@.len(),
            out@ =~= old(out)@ + without_nul(bytes@.take(i as int)),
        decreases bytes@.len() - i,
    {
        if bytes[i] == 0 {
            out.push(63);
        } else {
            out.push(bytes[i]);
        }
        i += 1;
    }
    assert(bytes@.take(i as int) =~= bytes@);
}

/// What is buffered holds no NUL, whatever was logged, and is as long.
pub proof fn law_events_hold_no_nul(b: Seq<u8>)
    ensures
        without_nul(b).len() == b.len(),
        !without_nul(b).contains(0),
{
}

/// What happens to the workers or is signalled.
#[derive(Clone, Copy, Debug, PartialEq, Eq, Structural)]
pub enum Happening {
    KernelEnded,
    BgpEnded,
    ConsoleEnded,
    /// A reload was requested; whether the new configuration is valid.
    Reload(bool),
    Terminate,
}

/// What to do about it.
#[derive(Clone, Copy, Debug, PartialEq, Eq, Structural)]
pub enum Course {
    /// Leave everything as it is.
    Continue,
    /// Stop the workers and start them with the new configuration.
    Restart,
    /// Stop the workers and end.
    Stop,
    /// Stop the workers and fail.
    Fail(Worker),
}

/// A worker without which nothing goes on.
#[derive(Clone, Copy, Debug, PartialEq, Eq, Structural)]
pub enum Worker {
    Kernel,
    Bgp,
    Console,
}

impl Worker {
    /// Why the end of a worker is the end of everything.
    pub fn message(self) -> (r: &'static str)
        ensures
            r@ == match self {
                Worker::Kernel => "netlink worker stopped unexpectedly"@,
                Worker::Bgp => "BGP task stopped unexpectedly"@,
                Worker::Console => "management task stopped unexpectedly"@,
            },
    {
        match self {
            Worker::Kernel => "netlink worker stopped unexpectedly",
            Worker::Bgp => "BGP task stopped unexpectedly",
            Worker::Console => "management task stopped unexpectedly",
        }
    }
}

/// Decide what to do. A configuration that is not valid changes nothing.
pub fn supervise(h: Happening) -> (r: Course)
    ensures
        r == match h {
            Happening::KernelEnded => Course::Fail(Worker::Kernel),
            Happening::BgpEnded => Course::Fail(Worker::Bgp),
            Happening::ConsoleEnded => Course::Fail(Worker::Console),
            Happening::Reload(true) => Course::Restart,
            Happening::Reload(false) => Course::Continue,
            Happening::Terminate => Course::Stop,
        },
{
    match h {
        Happening::KernelEnded => Course::Fail(Worker::Kernel),
        Happening::BgpEnded => Course::Fail(Worker::Bgp),
        Happening::ConsoleEnded => Course::Fail(Worker::Console),
        Happening::Reload(true) => Course::Restart,
        Happening::Reload(false) => Course::Continue,
        Happening::Terminate => Course::Stop,
    }
}

/// All but NULs is buffered as it was logged; a question mark stands for each NUL.
pub proof fn law_events_are_kept(b: Seq<u8>, i: int)
    requires
        0 <= i < b.len(),
    ensures
        b[i] != 0 ==> without_nul(b)[i] == b[i],
        b[i] == 0 ==> without_nul(b)[i] == 63,
{
}

/// Events keep the order of their gravity: an error is the gravest and comes out as such,
/// and nothing that only helps to find faults is taken for more.
pub proof fn law_graver_events_have_lower_priorities(
    error: i32,
    warn: i32,
    info: i32,
    debug: i32,
    trace: i32,
)
    requires
        call_ensures(priority, (Level::Error,), error),
        call_ensures(priority, (Level::Warn,), warn),
        call_ensures(priority, (Level::Info,), info),
        call_ensures(priority, (Level::Debug,), debug),
        call_ensures(priority, (Level::Trace,), trace),
    ensures
        error == 3 && warn == 4 && info == 6 && debug == 7 && trace == 7,
        error < warn < info < debug,
{
}

/// An event is put behind those that wait already, octet for octet but for NUL, which
/// becomes a question mark.
pub proof fn law_event_is_put_behind_the_others(out: &mut Vec<u8>, bytes: &[u8], i: int)
    requires
        call_ensures(buffer_event, (out, bytes), ()),
    ensures
        final(out)@.len() == old(out)@.len() + bytes@.len(),
        0 <= i < old(out)@.len() ==> final(out)@[i] == old(out)@[i],
        0 <= i < bytes@.len() && bytes@[i] != 0 ==> final(out)@[old(out)@.len() + i] == bytes@[i],
        0 <= i < bytes@.len() && bytes@[i] == 0 ==> final(out)@[old(out)@.len() + i] == 63,
{
}

/// The end of any worker is the end of the daemon, and names that worker. A new
/// configuration takes over exactly where it is valid, and only a signal stops the daemon
/// without a failure.
pub proof fn law_daemon_goes_on_until_told_otherwise(h: Happening, r: Course)
    requires
        call_ensures(supervise, (h,), r),
    ensures
        r is Restart <==> h == Happening::Reload(true),
        r is Continue <==> h == Happening::Reload(false),
        r is Stop <==> h is Terminate,
        r == Course::Fail(Worker::Kernel) <==> h is KernelEnded,
        r == Course::Fail(Worker::Bgp) <==> h is BgpEnded,
        r == Course::Fail(Worker::Console) <==> h is ConsoleEnded,
{
}

/// The message of a failure names its worker.
pub proof fn law_failure_names_its_worker(
    kernel: &'static str,
    bgp: &'static str,
    console: &'static str,
)
    requires
        call_ensures(Worker::message, (Worker::Kernel,), kernel),
        call_ensures(Worker::message, (Worker::Bgp,), bgp),
        call_ensures(Worker::message, (Worker::Console,), console),
    ensures
        kernel@ == "netlink worker stopped unexpectedly"@,
        bgp@ == "BGP task stopped unexpectedly"@,
        console@ == "management task stopped unexpectedly"@,
{
}

} // verus!
