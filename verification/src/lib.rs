//! Verified core of a processor for recordings from an over-the-air TV
//! recording service. Recordings arrive as encrypted containers and flow
//! through the stages encoded -> decoded -> cut; this crate holds the logic
//! of that pipeline: interval algebra over frame numbers and timestamps,
//! media metadata queries, the cut-list model with its parsers and
//! serializer, the container decoder core, the frame-accurate cutting
//! planner, and the driver's bookkeeping.

pub mod cfg;
pub mod cli;
pub mod crypto;
pub mod cutlist;
pub mod decoder;
pub mod ini;
pub mod interval;
pub mod metadata;
pub mod planner;
pub mod text;
pub mod video;

use vstd::prelude::*;

verus! {

/// Number of bytes in one Blowfish block.
pub const BLOCK_SIZE: usize = 8;

/// Upper bound for one decoding chunk; a multiple of `BLOCK_SIZE`.
pub const MAX_CHUNK_SIZE: usize = 10485760;

} // verus!
