//! Discrete settings and random streams of the motion stage.

use vstd::prelude::*;
use crate::rng::{stream_key_spec, Rng, Stream};

verus! {

/// How the look-ahead window is aggregated.
#[derive(Debug, Clone, Copy, PartialEq, Eq, Structural)]
pub enum LookAheadMode {
    /// Distance-weighted mean of the grade over the window.
    DistanceWeightedMean,
    /// Largest uphill grade in the window, modelling a cautious runner.
    WorstCase,
}

/// Builds the lateral-offset stream for one individual: purpose
/// `LateralOffset`, channel zero.
pub fn stream_rng(seed: u64, individual: u32) -> (r: Rng)
    ensures
        r.key() == stream_key_spec(seed, Stream::LateralOffset.tag_value(), individual, 0),
        r.position() == 0,
{
    Rng::stream(seed, Stream::LateralOffset, individual, 0)
}

} // verus!
