//! Real-time state core of a multiplayer relay server.
//!
//! Tracks which players are colocated on which level inside a room, and
//! drives the computation that turns per-tick player-state packets into
//! fanned-out broadcast packets for every other colocated player.  The
//! transport, authentication and logging layers live outside this crate;
//! they hand the handlers plain values and send the packets the handlers
//! return.

pub mod alist;
pub mod data;
pub mod handlers;
pub mod level;
pub mod switch;
