//! Kinds of frames.
use vstd::prelude::*;

verus! {

/// What a frame holds.
#[derive(Clone, Copy, Debug, PartialEq, Eq, Structural)]
pub enum SignalType {
    /// No voice activity.
    Inactive,
    /// Voice activity without a pitch.
    Unvoiced,
    /// Voice activity with a pitch.
    Voiced,
}

/// Duration of a frame.
#[derive(Clone, Copy, Debug, PartialEq, Eq, Structural)]
pub enum SilkFrameSize {
    /// 10 ms, two subframes.
    TenMs,
    /// 20 ms, four subframes.
    TwentyMs,
}

} // verus!
