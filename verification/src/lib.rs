//! Verified core of a RakNet-style reliable datagram transport.
//!
//! The crate covers the per-session reliability engine of a game server:
//! the frame/batch codec, the compound (fragmentation) collector, the
//! ordering channels, the retransmission bookkeeping, the send-queue
//! batching logic and the session state machine, together with the
//! byte-level codecs of the surrounding control and game packets and a
//! small entity registry.
//!
//! All socket, task and timing plumbing lives outside this crate; every
//! function here is a pure computation on plain values and is verified.

pub mod codec;
pub mod compound;
pub mod ecs;
pub mod frame;
pub mod order_channel;
pub mod packets;
pub mod recovery;
pub mod send_queue;
pub mod session;
pub mod tracker;
pub mod wire;

use vstd::prelude::*;

verus! {

} // verus!
