//! A real-time session relay core: the registry of connected players, the
//! wire codec for the events they exchange, the bounded broadcast fan-out,
//! and the per-connection state machine that ties them together.
//!
//! Everything here is sequential and free of I/O. A server embeds it by
//! guarding the shared `WorldState` and `Fanout` with locks of its choice and
//! by feeding each `Connection` the bytes and wake-ups its transport produces.

pub mod codec;
pub mod connection;
pub mod event;
pub mod fanout;
pub mod ident;
pub mod player;
pub mod wire;
pub mod world;
