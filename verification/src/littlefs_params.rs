//! Geometry of the internal flash as the filesystem sees it.

use vstd::prelude::*;

verus! {

/// Minimum read size.
pub const READ_SIZE: usize = 16;
/// Minimum write size.
pub const WRITE_SIZE: usize = 512;
/// Erase block size.
pub const BLOCK_SIZE: usize = 512;
/// Number of erase blocks.
pub const BLOCK_COUNT: usize = 256;
/// Wear-leveling cycles; negative disables wear leveling.
pub const BLOCK_CYCLES: isize = -1;

} // verus!
