//! Discrete choices of an individual's parameter vector.

use vstd::prelude::*;

verus! {

/// How a runner distributes effort over a run.
#[derive(Debug, Clone, Copy, PartialEq, Eq, Structural)]
pub enum PaceStrategy {
    /// Constant target speed.
    Even,
    /// Starts fast and fades, common among recreational runners.
    PositiveSplit,
    /// Starts steady and finishes faster, common among trained runners.
    NegativeSplit,
}

impl PaceStrategy {
    /// On-disk identifier of the strategy.
    pub open spec fn code(self) -> u8 {
        match self {
            PaceStrategy::Even => 0,
            PaceStrategy::PositiveSplit => 1,
            PaceStrategy::NegativeSplit => 2,
        }
    }

    /// Parses an on-disk identifier.
    pub fn from_u8(value: u8) -> (r: Option<Self>)
        ensures
            r == strategy_of_code(value),
    {
        match value {
            0 => Some(PaceStrategy::Even),
            1 => Some(PaceStrategy::PositiveSplit),
            2 => Some(PaceStrategy::NegativeSplit),
            _ => None,
        }
    }
}

/// Strategy with an on-disk identifier; identifiers above two name none.
pub open spec fn strategy_of_code(value: u8) -> Option<PaceStrategy> {
    if value == 0 {
        Some(PaceStrategy::Even)
    } else if value == 1 {
        Some(PaceStrategy::PositiveSplit)
    } else if value == 2 {
        Some(PaceStrategy::NegativeSplit)
    } else {
        None
    }
}

/// Law: parsing the identifier of a strategy gives the strategy back, and
/// every parsed identifier is the identifier of what it parsed to.
pub proof fn lemma_pace_strategy_code_roundtrip(strategy: PaceStrategy, value: u8)
    ensures
        strategy_of_code(strategy.code()) == Some(strategy),
        strategy_of_code(value) matches Some(parsed) ==> parsed.code() == value,
{
}

/// Preset running styles.
#[derive(Debug, Clone, Copy, PartialEq, Eq, Structural)]
pub enum Preset {
    /// Easy running: gentle pace, short look-ahead, soft-surface preference.
    Jog,
    /// Steady training pace.
    Moderate,
    /// Racing pace.
    Race,
}

} // verus!
