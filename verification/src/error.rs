use vstd::prelude::*;

verus! {

/// Why a frame could not be built, encoded or decoded.
#[derive(Debug, Clone, Copy, PartialEq, Eq, Structural)]
pub enum FrameError {
    CobsDecodeError,
    CrcMismatch,
    BufferTooSmall,
    InvalidLength,
    PayloadTooLarge,
}

} // verus!
