//! Control logic of an eight-step gate/trigger sequencer.
//!
//! The sequencer drives at most one of eight gate output lines at a time.
//! Four transport signals (reset, zero, forward clock, backward clock) and
//! eight momentary step buttons are sampled once per iteration of an outer
//! polling loop; this crate computes, from those samples, the next logical
//! step and the drive level of every output line. Hardware sampling and pin
//! driving live outside the crate and exchange plain booleans with it.

use vstd::prelude::*;

pub mod samples;
pub mod state;

verus! {

/// Number of sequencer steps.
pub const NUM_STEPS: usize = 8;

/// Number of momentary step-override buttons (one per step).
pub const NUM_BUTTON_INPUTS: usize = 8;

/// Number of gate output lines (one per step).
pub const NUM_GATE_OUTPUTS: usize = 8;

/// Largest valid step index.
pub const MAX_STEP: usize = 7;

} // verus!
