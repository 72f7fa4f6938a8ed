//! Client-side relay for a conductor process speaking a framed protocol:
//! MessagePack-encoded tagged messages (Request / Response / Signal) over a
//! binary-message transport. The crate provides the wire codec, the one-shot
//! call protocol, and the demultiplexing state of a persistent session.

pub mod codec;
pub mod frame;
pub mod oneshot;
pub mod session;
