//! Kernel routes, read through route netlink.
//!
//! Notifications are invalidations, not a second (potentially lossy) routing table.
//! One bounded, coalesced refresh rebuilds prefix presence from complete dumps.
pub mod dump;
pub mod event;
pub mod export;
pub mod kernel;
pub mod laws;
pub mod message;
pub mod route;
pub mod worker;

pub use crate::net::Prefixes;
pub use crate::netlink::dump::{dump_status, dump_status_in, Snapshot};
pub use crate::netlink::event::{buffer_capped, check_sender, groups, Events, Received, PASS};
pub use crate::netlink::export::{filter, Export, Exports};
pub use crate::netlink::message::{
    messages, messages_in, native, request, Message, NetlinkError, Split,
};
pub use crate::netlink::route::{route, route_in};
pub use crate::netlink::worker::{Board, Freshness, Worker};
