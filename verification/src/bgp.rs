//! BGP sessions: every decision that a peer's connections, sessions and
//! advertisements ask for. Sockets and timers are the caller's.
//!
//! Times are milliseconds on one clock that never goes back.
pub mod laws;
pub mod listen;
pub mod peer;
pub mod plan;
pub mod select;
pub mod session;
pub mod transmit;

pub use crate::bgp::listen::{dispatch, listeners, Listener};
pub use crate::bgp::peer::{PeerAction, PeerEvent, PeerLoop, PeerStage};
pub use crate::bgp::plan::Plan;
pub use crate::bgp::select::{Selection, Verdict};
pub use crate::bgp::session::{
    check_local_addresses, confirmation, link_local_next_hop, opened, redundant, report,
    AddressError, Assigned, Reaction, Session, Stage,
};
pub use crate::bgp::transmit::{desired, Action, Transmit};
