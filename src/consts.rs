use vstd::prelude::*;

verus! {

/// Magic bytes that open every index file: `LIM_IDX\0`.
pub const INDEX_MAGIC: [u8; 8] = [0x4c, 0x49, 0x4d, 0x5f, 0x49, 0x44, 0x58, 0x00];

/// Magic bytes that open every data file: `LIM_LOG\0`.
pub const LOG_MAGIC: [u8; 8] = [0x4c, 0x49, 0x4d, 0x5f, 0x4c, 0x4f, 0x47, 0x00];

/// Magic number (8) + attributes (8).
pub const HEADER_SIZE: usize = 16;

/// Identifier (16) + offset (8).
pub const INDEX_SIZE: usize = 24;

/// Identifier (16) + body length (8): the encoded size of a log with an
/// empty body, and the least number of bytes a reader needs to try decoding.
pub const MIN_LOG_SIZE: usize = 24;

/// The largest encoded log the codec accepts, header included.
pub const MAX_LOG_SIZE: usize = 4096;

/// Default usable size of a data file, 4 GiB.
pub const DEFAULT_LOG_SIZE: u64 = 4294967296;

/// Default usable size of an index file, 16 MiB.
pub const DEFAULT_INDEX_SIZE: u64 = 16777216;

/// Default depth of the writer channel.
pub const DEFAULT_CHANNEL_SIZE: u32 = 16;

} // verus!
