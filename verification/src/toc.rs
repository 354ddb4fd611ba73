//! Audio bandwidths.
use vstd::prelude::*;

verus! {

/// Audio bandwidth as announced by a packet.
#[derive(Clone, Copy, Debug, PartialEq, Eq, Structural)]
pub enum OpusBandwidth {
    Narrowband,
    Mediumband,
    Wideband,
    SuperWideband,
    Fullband,
}

/// Audio bandwidth of a speech layer.
#[derive(Clone, Copy, Debug, PartialEq, Eq, Structural)]
pub enum Bandwidth {
    Nb,
    Mb,
    Wb,
    Swb,
    Fb,
}

impl OpusBandwidth {
    /// The bandwidth is wide band.
    pub open spec fn wide(self) -> bool {
        self == OpusBandwidth::Wideband
    }
}

} // verus!
