//! One iteration's snapshot of every input: the four transport signals and
//! the button array, as plain booleans handed in by the hardware-facing code.

use vstd::prelude::*;

verus! {

use crate::NUM_BUTTON_INPUTS;

/// Names one input line: a step button by index, or a transport signal.
pub enum InputSelector {
    Button(usize),
    Reset,
    Zero,
    ForwardsClock,
    BackwardsClock,
}

/// The four transport signals of one sample, each true when the line reads
/// active.
#[derive(Clone, Copy)]
pub struct TransportSignals {
    pub reset_on: bool,
    pub zero_on: bool,
    pub forwards_clock_on: bool,
    pub backwards_clock_on: bool,
}

/// A full input snapshot for one iteration: the transport signals and the
/// level of every step button.
pub struct Samples {
    pub transport: TransportSignals,
    pub buttons_on: Vec<bool>,
}

impl Samples {
    /// Whether the snapshot is well formed: one button level per step.
    pub open spec fn wf(&self) -> bool {
        self.buttons_on@.len() == NUM_BUTTON_INPUTS
    }

    /// The level that the snapshot holds for the given input line.
    pub open spec fn spec_is_on(&self, selector: InputSelector) -> bool {
        match selector {
            InputSelector::Button(idx) => self.buttons_on@[idx as int],
            InputSelector::Reset => self.transport.reset_on,
            InputSelector::Zero => self.transport.zero_on,
            InputSelector::ForwardsClock => self.transport.forwards_clock_on,
            InputSelector::BackwardsClock => self.transport.backwards_clock_on,
        }
    }

    /// Look up the sampled level of one input line. A button index out of
    /// range is a defect in the caller, never looked up.
    pub fn is_on(&self, selector: InputSelector) -> (r: bool)
        requires
            selector matches InputSelector::Button(idx) ==> idx < self.buttons_on@.len(),
        ensures
            r == self.spec_is_on(selector),
    {
        match selector {
            InputSelector::Button(idx) => self.buttons_on[idx],
            InputSelector::Reset => self.transport.reset_on,
            InputSelector::Zero => self.transport.zero_on,
            InputSelector::ForwardsClock => self.transport.forwards_clock_on,
            InputSelector::BackwardsClock => self.transport.backwards_clock_on,
        }
    }
}

} // verus!
