//! The logic of a Linux announce-only BGP exporter with mandatory outbound prefix
//! ACLs, apart from sockets, threads and timers.
//!
//! [`config`] says what makes a configuration acceptable. [`netlink`] turns kernel
//! dumps into complete, ACL-filtered exports. [`bgp`] decides what peers are told,
//! on top of the bounded codec in [`wire`]; received routes are checked and
//! discarded. [`management`] answers a read-only console, and [`cli`] and
//! [`daemon`] start and stop it all.
//!
//! What the outside world does is an argument: bytes, times in milliseconds and
//! events come in, bytes and actions go out.
pub mod addr;
pub mod bgp;
pub mod bytes;
pub mod cli;
pub mod clock;
pub mod config;
pub mod daemon;
pub mod management;
pub mod net;
pub mod netlink;
pub mod text;
pub mod wire;
