//! Shared frame and surface metadata.
//!
//! The engine owns one `Info` value; the host writes it once per tick and
//! every scene reads a copy of it.  Durations are integer microseconds, so a
//! frame interval of 1/60 s is 16_666 microseconds.

use vstd::prelude::*;

verus! {

/// Largest frame interval the engine accepts, in microseconds (1000 seconds).
pub const MAX_DELTA_MICROS: u64 = 1_000_000_000;

/// Frame and surface metadata: the frame interval and the surface size.
#[derive(Clone, Copy, Debug)]
pub struct Info {
    /// Time between two host ticks, in microseconds.
    pub delta_micros: u64,
    /// Surface width in pixels.
    pub width: u32,
    /// Surface height in pixels.
    pub height: u32,
}

impl Info {
    /// A well-formed `Info` has a positive, bounded frame interval and a
    /// non-empty surface.
    pub open spec fn wf(self) -> bool {
        &&& 0 < self.delta_micros <= MAX_DELTA_MICROS
        &&& self.width > 0
        &&& self.height > 0
    }

    /// The frame rate implied by `delta_micros`, rounded to the nearest
    /// whole number of frames per second.
    pub open spec fn spec_fps(self) -> int
        recommends
            self.wf(),
    {
        (2_000_000 + self.delta_micros as int) / (2 * self.delta_micros as int)
    }

    /// Frames per second, rounded to nearest: `round(1_000_000 / delta)`.
    pub fn fps(&self) -> (r: u64)
        requires
            self.wf(),
        ensures
            r == self.spec_fps(),
    {
        (2_000_000u64 + self.delta_micros) / (2 * self.delta_micros)
    }
}

} // verus!
