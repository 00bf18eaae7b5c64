//! Route notifications, which only say that something changed.
use vstd::prelude::*;

use crate::bytes::ByteOrder;
use crate::netlink::message::split;
use crate::netlink::message::Envelope;
use crate::netlink::message::{
    messages_in, NetlinkError, NLMSG_ERROR, NLMSG_OVERRUN,
};

verus! {

/// How many datagrams are read in one pass, so that dump processing, shutdown and
/// timers get their turn.
pub const PASS: usize = 128;

/// What came of one attempt to read.
pub enum Received<'a> {
    Datagram(&'a [u8]),
    WouldBlock,
    Interrupted,
    Failed,
}

/// What a pass over the queued notifications showed.
#[derive(Clone, Copy, Debug, PartialEq, Eq, Structural)]
pub struct Events {
    pub changed: bool,
    pub lost: bool,
    pub datagrams: u64,
}

/// A message that tells of a change to links, addresses or routes.
pub open spec fn tells_change(kind: u16) -> bool {
    16 <= kind <= 28 || 104 <= kind <= 106
}

/// A message that tells that others were lost.
pub open spec fn tells_loss(kind: u16) -> bool {
    kind == NLMSG_OVERRUN || kind == NLMSG_ERROR
}

/// Whether some message of a datagram tells of a change.
pub open spec fn shows_change(m: Seq<Envelope>) -> bool {
    exists|i: int| 0 <= i < m.len() && tells_change((#[trigger] m[i]).kind)
}

/// Whether some message of a datagram tells of a loss.
pub open spec fn shows_loss(m: Seq<Envelope>) -> bool {
    exists|i: int| 0 <= i < m.len() && tells_loss((#[trigger] m[i]).kind)
}

impl Events {
    /// Nothing was seen yet.
    pub fn none() -> (r: Events)
        ensures
            r == (Events { changed: false, lost: false, datagrams: 0 }),
    {
        Events { changed: false, lost: false, datagrams: 0 }
    }

    /// What one attempt to read adds.
    pub open spec fn seen(self, order: ByteOrder, got: Received) -> Events {
        match got {
            Received::Datagram(b) => {
                let parts = split(order, b@);
                Events {
                    changed: self.changed || shows_change(parts.0),
                    lost: self.lost || b@.len() == 0 || parts.1 is Some || shows_loss(parts.0),
                    datagrams: (self.datagrams + 1) as u64,
                }
            },
            Received::WouldBlock | Received::Interrupted => self,
            Received::Failed => Events { lost: true, ..self },
        }
    }

    /// Take what one attempt to read gave. The result is whether to read on.
    pub fn step(&mut self, order: ByteOrder, got: Received) -> (r: bool)
        requires
            old(self).datagrams < u64::MAX,
        ensures
            *final(self) == old(self).seen(order, got),
            r == match got {
                Received::Datagram(b) => b@.len() > 0,
                Received::Interrupted => true,
                Received::WouldBlock | Received::Failed => false,
            },
    {
        match got {
            Received::Datagram(b) => {
                self.datagrams = self.datagrams + 1;
                if b.len() == 0 {
                    self.lost = true;
                    return false;
                }
                let parts = messages_in(order, b);
                let ghost all = parts@.0;
                let mut i: usize = 0;
                while i < parts.messages.len()
                    invariant
                        i <= parts.messages@.len(),
                        all == parts@.0,
                        self.datagrams == old(self).datagrams + 1,
                        self.changed == (old(self).changed || shows_change(all.take(i as int))),
                        self.lost == (old(self).lost || shows_loss(all.take(i as int))),
                    decreases parts.messages@.len() - i,
                {
                    let kind: u16 = parts.messages[i].kind;
                    proof {
                        let next = all.take(i + 1);
                        let now = all.take(i as int);
                        assert(next[i as int].kind == kind);
                        assert(shows_change(next) == (shows_change(now) || tells_change(kind))) by {
                            if shows_change(now) {
                                let j = choose|j: int|
                                    0 <= j < now.len() && tells_change((#[trigger] now[j]).kind);
                                assert(next[j] == now[j]);
                            }
                            if shows_change(next) {
                                let j = choose|j: int|
                                    0 <= j < next.len() && tells_change((#[trigger] next[j]).kind);
                                assert(j < i ==> next[j] == now[j]);
                            }
                        }
                        assert(shows_loss(next) == (shows_loss(now) || tells_loss(kind))) by {
                            if shows_loss(now) {
                                let j = choose|j: int|
                                    0 <= j < now.len() && tells_loss((#[trigger] now[j]).kind);
                                assert(next[j] == now[j]);
                            }
                            if shows_loss(next) {
                                let j = choose|j: int|
                                    0 <= j < next.len() && tells_loss((#[trigger] next[j]).kind);
                                assert(j < i ==> next[j] == now[j]);
                            }
                        }
                    }
                    if kind == NLMSG_OVERRUN || kind == NLMSG_ERROR {
                        self.lost = true;
                    } else if (16 <= kind && kind <= 28) || (104 <= kind && kind <= 106) {
                        self.changed = true;
                    }
                    i += 1;
                }
                assert(all.take(i as int) =~= all);
                if parts.fault.is_some() {
                    self.lost = true;
                }
                true
            },
            Received::WouldBlock => false,
            Received::Interrupted => true,
            Received::Failed => {
                self.lost = true;
                false
            },
        }
    }
}

/// Whether a datagram is whole and comes from the kernel.
pub fn check_sender(truncated: bool, complete_address: bool, pid: u32) -> (r: Result<
    (),
    NetlinkError,
>)
    ensures
        r == if truncated {
            Err(NetlinkError::Truncated)
        } else if !complete_address || pid != 0 {
            Err(NetlinkError::Sender)
        } else {
            Ok::<(), NetlinkError>(())
        },
{
    if truncated {
        Err(NetlinkError::Truncated)
    } else if !complete_address || pid != 0 {
        Err(NetlinkError::Sender)
    } else {
        Ok(())
    }
}

/// The multicast groups to join: links, IPv4 addresses and routes, and with IPv6
/// its addresses and routes.
pub fn groups(ipv6: bool) -> (r: u32)
    ensures
        r == 1 + 0x10 + 0x40 + if ipv6 {
            0x100int + 0x400
        } else {
            0
        },
{
    if ipv6 {
        1 + 0x10 + 0x40 + 0x100 + 0x400
    } else {
        1 + 0x10 + 0x40
    }
}

/// Whether the kernel gave a smaller receive buffer than requested. It reports
/// twice the capacity, for its bookkeeping.
pub fn buffer_capped(effective: usize, requested: usize) -> (r: bool)
    ensures
        r == (effective < if requested * 2 > usize::MAX {
            usize::MAX as int
        } else {
            requested * 2
        }),
{
    let wanted: usize = if requested > usize::MAX / 2 {
        usize::MAX
    } else {
        requested * 2
    };
    effective < wanted
}

/// Every datagram is counted, and only it. A pass goes on after a datagram and after an
/// interruption, and ends where nothing is left or reading fails. An empty datagram is a
/// loss and ends it too.
pub proof fn law_pass_goes_on(
    none: Events,
    events: &mut Events,
    order: ByteOrder,
    got: Received,
    r: bool,
)
    requires
        call_ensures(Events::none, (), none),
        call_ensures(Events::step, (events, order, got), r),
        old(events).datagrams < u64::MAX,
    ensures
        !none.changed && !none.lost && none.datagrams == 0,
        got matches Received::Datagram(b) ==> final(events).datagrams == old(events).datagrams + 1
            && (r <==> b@.len() > 0) && (b@.len() == 0 ==> final(events).lost),
        !(got is Datagram) ==> final(events).datagrams == old(events).datagrams
            && final(events).changed == old(events).changed,
        got is Interrupted ==> r && *final(events) == *old(events),
        got is WouldBlock ==> !r && *final(events) == *old(events),
        got is Failed ==> !r && final(events).lost,
        old(events).changed ==> final(events).changed,
        old(events).lost ==> final(events).lost,
{
}

/// Only the kernel is believed, and only where all that it sent has come.
pub proof fn law_only_the_kernel_is_believed(
    truncated: bool,
    complete_address: bool,
    pid: u32,
    r: Result<(), NetlinkError>,
)
    requires
        call_ensures(check_sender, (truncated, complete_address, pid), r),
    ensures
        r is Ok <==> !truncated && complete_address && pid == 0,
        r == Err::<(), NetlinkError>(NetlinkError::Truncated) <==> truncated,
        r == Err::<(), NetlinkError>(NetlinkError::Sender) <==> !truncated && (!complete_address
            || pid > 0),
{
}

/// Links, and the addresses and routes of IPv4, are always listened to: groups one, five
/// and seven. Where IPv6 is enabled so are groups nine and eleven, and no other group is.
pub proof fn law_groups_are_those_of_the_families(without: u32, with: u32)
    requires
        call_ensures(groups, (false,), without),
        call_ensures(groups, (true,), with),
    ensures
        without == (1u32 << 0) | (1u32 << 4) | (1u32 << 6),
        with == without | (1u32 << 8) | (1u32 << 10),
{
    assert(0x51 == (1u32 << 0) | (1u32 << 4) | (1u32 << 6)) by (bit_vector);
    assert(0x551 == 0x51u32 | (1u32 << 8) | (1u32 << 10)) by (bit_vector);
}

/// A buffer is too small where it holds less than twice what was asked for.
pub proof fn law_buffer_is_twice_what_was_asked(effective: usize, requested: usize, r: bool)
    requires
        call_ensures(buffer_capped, (effective, requested), r),
        requested <= usize::MAX / 2,
    ensures
        r <==> effective < requested + requested,
{
}

} // verus!
