//! Bounded, read-only, loopback management console with minimal Telnet support.
pub mod console;
pub mod input;
pub mod laws;
pub mod status;

pub use crate::management::console::{
    greeting, respond, safe, show_routes, Reply, HELP,
};
pub use crate::management::input::{InputError, LineReader, Step};
pub use crate::management::status::{accepts, statuses, update, PeerStatus};
