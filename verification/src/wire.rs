//! Small bounded BGP codec. No received route is installed or re-exported.
pub mod agreed;
pub mod built;
pub mod decode;
pub mod encode;
pub mod error;
pub mod frame;
pub mod laws;
pub mod open;
pub mod parts;
pub mod received;
pub mod sent;
pub mod validate;

pub use crate::wire::decode::update_prefixes;
pub use crate::wire::encode::update;
pub use crate::wire::error::{unexpected, Error, Fault, FsmState, ProtocolError};
pub use crate::wire::frame::{
    check_header, end_of_rib, frame, notification, read_frame, Frame, KEEPALIVE, MAX_MESSAGE,
    MAX_UPDATE_PREFIXES, NOTIFICATION, OPEN, ROUTE_REFRESH, UPDATE,
};
pub use crate::wire::open::{open, parse_open, Negotiated};
pub use crate::wire::validate::{refresh_family, validate_update, UpdateAction};
