//! Shared metadata types of the audio block plane.
use vstd::prelude::*;

verus! {

/// Identifier of a logical audio buffer.
#[derive(Debug, Clone, Copy, PartialEq, Eq, Structural)]
pub struct BufferId(pub u32);

/// Per-block flags carried in an [`AudioBlockHeader`].
#[derive(Debug, Clone, Copy, PartialEq, Eq, Structural)]
pub struct BlockFlags {
    /// The block is intentional silence.
    pub silent: bool,
    /// The block starts right after a loop wrap-around.
    pub loop_wrapped: bool,
    /// The block is the last one of its segment.
    pub final_segment: bool,
}

impl Default for BlockFlags {
    fn default() -> (f: Self)
        ensures
            !f.silent,
            !f.loop_wrapped,
            !f.final_segment,
    {
        BlockFlags { silent: false, loop_wrapped: false, final_segment: false }
    }
}

/// Frame-indexed metadata of one audio block.
#[derive(Debug, Clone, Copy, PartialEq, Eq, Structural)]
pub struct AudioBlockHeader {
    /// Absolute frame index of the first frame in the block.
    pub start_frame: u64,
    /// Number of frames in the block.
    pub frames: u32,
    /// Interleaved channel count.
    pub channels: u16,
    /// Block sequence number; `0` asks the producer to assign one.
    pub sequence: u64,
    /// Block flags.
    pub flags: BlockFlags,
}

} // verus!
