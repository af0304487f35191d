//! Client-side primitives for a tagged text-line protocol: a DEFLATE
//! compressing duplex-stream wrapper that is swapped in after a successful
//! extension handshake, and a tagged-response collector that correlates
//! interleaved server frames with the command that requested them while
//! forwarding unrelated frames to a side channel.

pub mod channel;
pub mod collect;
pub mod deflate;
pub mod errors;
pub mod frames;
pub mod ids;
pub mod mail;
pub mod protocol;
pub mod session;
pub mod stream;
pub mod transport;
