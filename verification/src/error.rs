//! Errors raised when a component is configured with parameters it cannot accept.

use vstd::prelude::*;

verus! {

/// Why a component could not be constructed.
#[derive(Debug, Clone, Copy, PartialEq, Eq, Structural)]
pub enum ConfigError {
    /// The hot and warm segments together would hold more buffers than the whole cache.
    SegmentsExceedTotal,
    /// A disk track must hold at least one sector.
    ZeroSectorsPerTrack,
}

} // verus!
