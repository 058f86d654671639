//! Sizes shared by every part of the bus.
use vstd::prelude::*;

verus! {

/// Width in bytes of a length field inside a payload.
pub const LENGTH_SIZE: usize = 4;

/// Bytes of a message that carry user data.
pub const PAYLOAD_SIZE: usize = 28;

/// Size in bytes of every message on the bus.
pub const MESSAGE_SIZE: usize = 32;

/// Bytes of bookkeeping in front of the messages of a shared buffer.
pub const METADATA: usize = 64;

/// Alignment of every buffer the bus allocates.
pub const TARGET_ALIGN: usize = 64;

/// Largest allocation the bus asks for: `isize::MAX - TARGET_ALIGN`.
pub const MAX_SIZE: usize = usize::MAX / 2 - TARGET_ALIGN;

pub const KB: usize = 1024;

pub const MB: usize = 1048576;

pub const DEFAULT_SLICES: usize = 256;

pub const DEFAULT_SLICE_SIZE: usize = 524288;

pub const SPECIAL_DATA_OFFSET: usize = 64;

/// The constants agree with the relations they are named after.
pub proof fn lemma_defines_consistent()
    ensures
        MESSAGE_SIZE == LENGTH_SIZE + PAYLOAD_SIZE,
        MAX_SIZE == usize::MAX / 2 - TARGET_ALIGN,
        MB == KB * KB,
        DEFAULT_SLICE_SIZE == KB * 512,
{
}

} // verus!
