//! A TFTP read server's transfer logic: the packet codec, the sliding window
//! over 16-bit block numbers, and the per-transfer decision engine.
use vstd::prelude::*;

pub mod packet;
pub mod transfer;
pub mod window;

pub use crate::packet::{DecodeError, TftpPacket};
pub use crate::window::Window;

verus! {

/// Block size used when the client negotiates none (RFC 1350).
pub const DEF_BLOCK_SIZE: u16 = 512;

/// Smallest block size a client may negotiate (RFC 2348).
pub const MIN_BLOCK_SIZE: u16 = 8;

/// Largest block size a client may negotiate (RFC 2348).
pub const MAX_BLOCK_SIZE: u16 = 65464;

/// Window size used when the client negotiates none.
pub const DEF_WINDOW_SIZE: u16 = 1;

/// Default wait for an acknowledgement, in seconds.
pub const DEF_TIMEOUT_SEC: u64 = 1;

/// Default number of consecutive timeouts before a transfer gives up.
pub const MAX_RETRY_COUNT: u8 = 3;

} // verus!
