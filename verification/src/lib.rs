//! Verified core of a running-trajectory simulator.
//!
//! The integer and bookkeeping logic of the simulator lives here with
//! contracts: deterministic random stream keys, the counter-based hash of the
//! batch noise source, the packed node identifiers of the mixed search graph,
//! the hard-constraint mask, the bitmap layout handed to the compute backends
//! and the keys that make path overlap measurable.

pub mod arith;
pub mod eval;
pub mod field;
pub mod gpu;
pub mod graph;
pub mod motion;
pub mod person;
pub mod prm;
pub mod rng;
pub mod search;
