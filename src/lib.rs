//! Protocol engine for the handshake and status phases of a varint-framed
//! game-server wire protocol: the varint codec, a packet cursor, packet
//! schemas, the per-connection state machine and its event queue, and the
//! ownership flags of the per-connection buffer slots.

pub mod error;
pub mod net;
pub mod packets;
pub mod pool;
pub mod queue;
pub mod read;
pub mod varint;
pub mod write;
