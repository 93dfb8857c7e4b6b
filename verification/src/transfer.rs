//! One-shot transfers of large files: blocks, the multi-stream protocol
//! and the datagram chunk format.

pub mod multistream;
pub mod udp_core;
pub mod zero_copy_io;
