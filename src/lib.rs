//! Connection core of a client for a line-framed publish/subscribe broker,
//! written without I/O: every operation computes state changes and the bytes
//! that must go on the wire, and the caller performs the socket work.
pub mod inbound;
pub mod outbound;
pub mod pongs;
pub mod protocol;
pub mod reconnect;
pub mod servers;
pub mod subs;
pub mod writer;
