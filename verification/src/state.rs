//! The step state machine: the nullable step index and its transition rules.

use vstd::prelude::*;

verus! {

use crate::MAX_STEP;
use crate::NUM_BUTTON_INPUTS;
use crate::NUM_GATE_OUTPUTS;
use crate::samples::InputSelector;
use crate::samples::Samples;
use crate::samples::TransportSignals;

/// Whether a nullable step index is valid: absent, or within `0..=MAX_STEP`.
pub open spec fn step_in_range(s: Option<usize>) -> bool {
    s matches Some(i) ==> i <= MAX_STEP
}

/// The step one forward of `s`, with wraparound; forward from no value
/// resolves to index 0.
pub open spec fn step_next(s: Option<usize>) -> Option<usize> {
    match s {
        Option::None => Some(0usize),
        Option::Some(i) => if i >= MAX_STEP {
            Some(0usize)
        } else {
            Some((i + 1) as usize)
        },
    }
}

/// The step one backward of `s`, with wraparound; backward from no value
/// resolves to the last index.
pub open spec fn step_prev(s: Option<usize>) -> Option<usize> {
    match s {
        Option::None => Some(MAX_STEP),
        Option::Some(i) => if i == 0 {
            Some(MAX_STEP)
        } else {
            Some((i - 1) as usize)
        },
    }
}

/// A nullable step index: `Some(i)` when step `i` is active, `None` when the
/// sequencer is silenced and no output line may be driven.
#[derive(Clone, Copy)]
pub struct Step {
    step: Option<usize>,
}

impl View for Step {
    type V = Option<usize>;

    closed spec fn view(&self) -> Option<usize> {
        self.step
    }
}

impl Step {
    /// A step holding the given index.
    pub fn new(step: Option<usize>) -> (r: Self)
        ensures
            r@ == step,
    {
        Step { step }
    }

    /// The held index, if any.
    pub fn get(&self) -> (r: Option<usize>)
        ensures
            r == self@,
    {
        self.step
    }

    /// Replace the held index. An out-of-range index is a defect in the
    /// caller, never stored.
    pub fn set(&mut self, new_step: Option<usize>)
        requires
            step_in_range(new_step),
        ensures
            final(self)@ == new_step,
    {
        self.step = new_step;
    }

    /// The index one backward of the held one, with wraparound; backward from
    /// no value resolves to the last index.
    pub fn get_previous(&self) -> (r: Option<usize>)
        ensures
            r == step_prev(self@),
            step_in_range(self@) ==> step_in_range(r),
    {
        if let Some(step) = self.step {
            if step == 0 {
                Some(MAX_STEP)
            } else {
                Some(step - 1)
            }
        } else {
            Some(MAX_STEP)
        }
    }

    /// The index one forward of the held one, with wraparound; forward from
    /// no value resolves to index 0.
    pub fn get_next(&self) -> (r: Option<usize>)
        ensures
            r == step_next(self@),
            step_in_range(r),
    {
        if let Some(step) = self.step {
            if step >= MAX_STEP {
                Some(0)
            } else {
                Some(step + 1)
            }
        } else {
            Some(0)
        }
    }

    /// Advance one step forward, with wraparound.
    pub fn increment(&mut self)
        ensures
            final(self)@ == step_next(old(self)@),
            step_in_range(final(self)@),
    {
        self.step = self.get_next();
    }

    /// Move one step backward, with wraparound.
    pub fn decrement(&mut self)
        ensures
            final(self)@ == step_prev(old(self)@),
            step_in_range(old(self)@) ==> step_in_range(final(self)@),
    {
        self.step = self.get_previous();
    }

    /// Silence the sequencer: no step is active.
    pub fn zero(&mut self)
        ensures
            final(self)@ is None,
    {
        self.step = None;
    }

    /// Return to the first step.
    pub fn reset(&mut self)
        ensures
            final(self)@ == Some(0usize),
    {
        self.step = Some(0);
    }
}

/// Whether a signal shows a rising edge: active now, inactive on the
/// previous sample. Clocks, zero and reset all trigger on this edge alone.
pub open spec fn spec_turned_on(current: bool, last: bool) -> bool {
    current && !last
}

/// The highest button index currently held active, if any: the override
/// that wins when several buttons are held at once.
pub open spec fn highest_active(buttons: Seq<bool>) -> Option<usize>
    decreases buttons.len(),
{
    if buttons.len() == 0 {
        None
    } else if buttons[buttons.len() - 1] {
        Some((buttons.len() - 1) as usize)
    } else {
        highest_active(buttons.drop_last())
    }
}

/// The step after the button override: the highest held button's index, or
/// `s` unchanged when no button is held.
pub open spec fn apply_button_override(s: Option<usize>, buttons: Seq<bool>) -> Option<usize> {
    match highest_active(buttons) {
        Option::Some(i) => Some(i),
        Option::None => s,
    }
}

/// One full transition of the step state machine, in the fixed rule order:
/// forward clock, backward clock, zero, reset — each on a rising edge of its
/// signal — and last the button override, which preempts them all.
pub open spec fn spec_advance(
    last_step: Option<usize>,
    last: TransportSignals,
    now: TransportSignals,
    buttons: Seq<bool>,
) -> Option<usize> {
    let after_forwards = if spec_turned_on(now.forwards_clock_on, last.forwards_clock_on) {
        step_next(last_step)
    } else {
        last_step
    };
    let after_backwards = if spec_turned_on(now.backwards_clock_on, last.backwards_clock_on) {
        step_prev(after_forwards)
    } else {
        after_forwards
    };
    let after_zero = if spec_turned_on(now.zero_on, last.zero_on) {
        None
    } else {
        after_backwards
    };
    let after_reset = if spec_turned_on(now.reset_on, last.reset_on) {
        Some(0usize)
    } else {
        after_zero
    };
    apply_button_override(after_reset, buttons)
}

/// A reconciled output image: with no current step every gate
/// is deasserted; otherwise the previous step's gate is deasserted, then the
/// current step's gate asserted, and every other gate keeps its level.
pub open spec fn reconcile_gates(
    gates: Seq<bool>,
    previous: Option<usize>,
    current: Option<usize>,
) -> Seq<bool> {
    match current {
        Option::None => Seq::new(gates.len(), |i: int| false),
        Option::Some(c) => Seq::new(
            gates.len(),
            |i: int| if i == c {
                true
            } else if previous == Some(i as usize) {
                false
            } else {
                gates[i]
            },
        ),
    }
}

/// How many gate levels in an image are asserted.
pub open spec fn asserted_count(gates: Seq<bool>) -> nat
    decreases gates.len(),
{
    if gates.len() == 0 {
        0
    } else {
        asserted_count(gates.drop_last()) + if gates.last() {
            1nat
        } else {
            0nat
        }
    }
}

/// An output image that asserts exactly `current`'s gate — no gate when
/// `current` is absent — asserts 1 gate, or 0.
proof fn lemma_asserted_count_exact(gates: Seq<bool>, current: Option<usize>)
    requires
        gates.len() <= usize::MAX,
        forall|i: int| 0 <= i < gates.len() ==> gates[i] == (current == Some(i as usize)),
        current matches Some(c) ==> c < gates.len(),
    ensures
        asserted_count(gates) == if current is Some {
            1nat
        } else {
            0nat
        },
    decreases gates.len(),
{
    if gates.len() > 0 {
        let last = gates.len() - 1;
        if current == Some(last as usize) {
            // The asserted gate is the dropped one, so the prefix is all off.
            assert(forall|i: int| 0 <= i < gates.drop_last().len() ==> !gates.drop_last()[i]);
            lemma_asserted_count_exact(gates.drop_last(), None);
        } else {
            lemma_asserted_count_exact(gates.drop_last(), current);
        }
    }
}

/// Single-assertion invariant: in every reachable state — every state that
/// satisfies the invariant the constructor establishes and `update`
/// preserves — the number of asserted gate outputs is 1 when a step is
/// active and 0 when none is, never more.
pub proof fn lemma_single_assertion(s: State)
    requires
        s.inv(),
    ensures
        asserted_count(s.gates()) == if s.spec_step() is Some {
            1nat
        } else {
            0nat
        },
{
    lemma_asserted_count_exact(s.gates(), s.spec_step());
}

/// With no button held, the button override leaves the step alone.
proof fn lemma_no_button_no_override(buttons: Seq<bool>)
    requires
        forall|j: int| 0 <= j < buttons.len() ==> !buttons[j],
    ensures
        highest_active(buttons) is None,
    decreases buttons.len(),
{
    if buttons.len() > 0 {
        lemma_no_button_no_override(buttons.drop_last());
    }
}

/// The button override picks exactly the highest held index.
proof fn lemma_highest_active_wins(buttons: Seq<bool>, i: usize)
    requires
        0 <= i < buttons.len(),
        buttons[i as int],
        forall|j: int| i < j < buttons.len() ==> !buttons[j],
    ensures
        highest_active(buttons) == Some(i),
    decreases buttons.len(),
{
    if buttons.len() - 1 > i {
        lemma_highest_active_wins(buttons.drop_last(), i);
    }
}

/// Button priority: whenever button `i` is held and no higher-indexed button
/// is, one transition ends at step `i` — whatever the prior step and
/// whatever clock, zero or reset edges arrive in the same iteration.
pub proof fn lemma_button_priority(
    last_step: Option<usize>,
    last: TransportSignals,
    now: TransportSignals,
    buttons: Seq<bool>,
    i: usize,
)
    requires
        0 <= i < buttons.len(),
        buttons[i as int],
        forall|j: int| i < j < buttons.len() ==> !buttons[j],
    ensures
        spec_advance(last_step, last, now, buttons) == Some(i),
{
    lemma_highest_active_wins(buttons, i);
}

/// Edge-only triggering: a transition needs a rising edge. When no signal
/// goes from inactive to active — in particular when a clock is merely held
/// active, or when every signal still reads as it did when its history was
/// seeded — and no button is held, the step does not move.
pub proof fn lemma_no_rising_edge_no_transition(
    last_step: Option<usize>,
    last: TransportSignals,
    now: TransportSignals,
    buttons: Seq<bool>,
)
    requires
        !spec_turned_on(now.forwards_clock_on, last.forwards_clock_on),
        !spec_turned_on(now.backwards_clock_on, last.backwards_clock_on),
        !spec_turned_on(now.zero_on, last.zero_on),
        !spec_turned_on(now.reset_on, last.reset_on),
        forall|j: int| 0 <= j < buttons.len() ==> !buttons[j],
    ensures
        spec_advance(last_step, last, now, buttons) == last_step,
{
    lemma_no_button_no_override(buttons);
}

/// A lone rising edge of the forward clock advances the step exactly one
/// position, with wraparound; the backward clock is symmetric.
pub proof fn lemma_clock_edge_advances(
    last_step: Option<usize>,
    last: TransportSignals,
    now: TransportSignals,
    buttons: Seq<bool>,
)
    requires
        !spec_turned_on(now.zero_on, last.zero_on),
        !spec_turned_on(now.reset_on, last.reset_on),
        forall|j: int| 0 <= j < buttons.len() ==> !buttons[j],
    ensures
        spec_turned_on(now.forwards_clock_on, last.forwards_clock_on) && !spec_turned_on(
            now.backwards_clock_on,
            last.backwards_clock_on,
        ) ==> spec_advance(last_step, last, now, buttons) == step_next(last_step),
        spec_turned_on(now.backwards_clock_on, last.backwards_clock_on) && !spec_turned_on(
            now.forwards_clock_on,
            last.forwards_clock_on,
        ) ==> spec_advance(last_step, last, now, buttons) == step_prev(last_step),
{
    lemma_no_button_no_override(buttons);
}

/// Idempotent reconcile: with the previous and current step equal, a second
/// reconciliation requests exactly the same output image as the first.
pub proof fn lemma_idempotent_reconcile(gates: Seq<bool>, current: Option<usize>)
    ensures
        reconcile_gates(reconcile_gates(gates, current, current), current, current)
            == reconcile_gates(gates, current, current),
{
    assert(reconcile_gates(reconcile_gates(gates, current, current), current, current)
        =~= reconcile_gates(gates, current, current));
}

/// The whole sequencer: the current step, the previous sample of each
/// transport signal, and the requested drive level of every gate output.
pub struct State {
    last_step: Step,
    last_reset_on: bool,
    last_zero_on: bool,
    last_forwards_clock_on: bool,
    last_backwards_clock_on: bool,
    gate_outputs: Vec<bool>,
}

impl State {
    /// The current logical step.
    pub closed spec fn spec_step(&self) -> Option<usize> {
        self.last_step@
    }

    /// The previous sample of the four transport signals.
    pub closed spec fn spec_last_transport(&self) -> TransportSignals {
        TransportSignals {
            reset_on: self.last_reset_on,
            zero_on: self.last_zero_on,
            forwards_clock_on: self.last_forwards_clock_on,
            backwards_clock_on: self.last_backwards_clock_on,
        }
    }

    /// The requested drive level of every gate output line.
    pub closed spec fn gates(&self) -> Seq<bool> {
        self.gate_outputs@
    }

    /// The state invariant: the step is in range, there is one gate level per
    /// step, and exactly the current step's gate — no other — is asserted.
    pub open spec fn inv(&self) -> bool {
        &&& step_in_range(self.spec_step())
        &&& self.gates().len() == NUM_GATE_OUTPUTS
        &&& forall|i: int|
            0 <= i < self.gates().len() ==> self.gates()[i] == (self.spec_step() == Some(
                i as usize,
            ))
    }

    /// Construct the sequencer at step 0 with gate 0 asserted, seeding every
    /// signal history with the given first sample so that the first iteration
    /// sees no spurious edge.
    pub fn new(initial: TransportSignals) -> (s: Self)
        ensures
            s.inv(),
            s.spec_step() == Some(0usize),
            s.spec_last_transport() == initial,
    {
        let mut gate_outputs: Vec<bool> = Vec::new();
        gate_outputs.push(true);
        while gate_outputs.len() < NUM_GATE_OUTPUTS
            invariant
                1 <= gate_outputs@.len() <= NUM_GATE_OUTPUTS,
                gate_outputs@[0] == true,
                forall|i: int| 1 <= i < gate_outputs@.len() ==> gate_outputs@[i] == false,
            decreases NUM_GATE_OUTPUTS - gate_outputs@.len(),
        {
            gate_outputs.push(false);
        }
        State {
            last_step: Step::new(Some(0)),
            last_reset_on: initial.reset_on,
            last_zero_on: initial.zero_on,
            last_forwards_clock_on: initial.forwards_clock_on,
            last_backwards_clock_on: initial.backwards_clock_on,
            gate_outputs,
        }
    }

    /// The current logical step, as the output driver and tests observe it.
    pub fn current_step(&self) -> (r: Option<usize>)
        ensures
            r == self.spec_step(),
    {
        self.last_step.get()
    }

    /// The drive level requested for one gate output line.
    pub fn gate_is_on(&self, idx: usize) -> (r: bool)
        requires
            idx < self.gates().len(),
        ensures
            r == self.gates()[idx as int],
    {
        self.gate_outputs[idx]
    }

    /// Whether a signal sample shows a rising edge against its previous one.
    fn turned_on(&self, current: bool, last: bool) -> (r: bool)
        ensures
            r == spec_turned_on(current, last),
    {
        current && current != last
    }

    /// One polling-loop iteration: from the previous state and the fresh
    /// input snapshot, compute the next step in the fixed rule order (clock
    /// edges, zero, reset, then button override), reconcile every gate
    /// output with it, and retain the snapshot as the next iteration's
    /// signal history.
    pub fn update(&mut self, samples: &Samples)
        requires
            old(self).inv(),
            samples.wf(),
        ensures
            final(self).inv(),
            final(self).spec_step() == spec_advance(
                old(self).spec_step(),
                old(self).spec_last_transport(),
                samples.transport,
                samples.buttons_on@,
            ),
            final(self).spec_last_transport() == samples.transport,
    {
        let reset_on = samples.is_on(InputSelector::Reset);
        let zero_on = samples.is_on(InputSelector::Zero);
        let forwards_clock_on = samples.is_on(InputSelector::ForwardsClock);
        let backwards_clock_on = samples.is_on(InputSelector::BackwardsClock);
        let mut current_step = self.last_step;

        if self.turned_on(forwards_clock_on, self.last_forwards_clock_on) {
            current_step.increment();
        }
        self.last_forwards_clock_on = forwards_clock_on;

        if self.turned_on(backwards_clock_on, self.last_backwards_clock_on) {
            current_step.decrement();
        }
        self.last_backwards_clock_on = backwards_clock_on;

        if self.turned_on(zero_on, self.last_zero_on) {
            current_step.zero();
        }
        self.last_zero_on = zero_on;

        if self.turned_on(reset_on, self.last_reset_on) {
            current_step.reset();
        }
        self.last_reset_on = reset_on;

        let ghost before_buttons = current_step@;

        // Every held button forces its own step; scanning upward lets the
        // highest held index win.
        let mut idx: usize = 0;
        while idx < samples.buttons_on.len()
            invariant
                idx <= samples.buttons_on@.len(),
                samples.buttons_on@.len() == NUM_BUTTON_INPUTS,
                step_in_range(current_step@),
                current_step@ == apply_button_override(
                    before_buttons,
                    samples.buttons_on@.take(idx as int),
                ),
            decreases samples.buttons_on@.len() - idx,
        {
            if samples.is_on(InputSelector::Button(idx)) {
                current_step.set(Some(idx));
            }
            proof {
                assert(samples.buttons_on@.take(idx + 1).drop_last() =~= samples.buttons_on@.take(
                    idx as int,
                ));
            }
            idx = idx + 1;
        }
        proof {
            assert(samples.buttons_on@.take(samples.buttons_on@.len() as int)
                =~= samples.buttons_on@);
        }

        self.update_outputs_for_current_step(&current_step);
        self.last_step = current_step;
    }

    /// Reconcile every output line with a newly computed step: deassert every
    /// gate when the step is absent, else deassert the previous step's gate
    /// and assert the new one's.
    pub fn update_outputs_for_current_step(&mut self, current_step: &Step)
        requires
            old(self).gates().len() == NUM_GATE_OUTPUTS,
            step_in_range(old(self).spec_step()),
            step_in_range(current_step@),
        ensures
            final(self).gates() == reconcile_gates(
                old(self).gates(),
                old(self).spec_step(),
                current_step@,
            ),
            final(self).spec_step() == old(self).spec_step(),
            final(self).spec_last_transport() == old(self).spec_last_transport(),
    {
        // With no current step, every gate output is deasserted, whatever
        // the previous step was.
        if current_step.get().is_none() {
            let mut idx: usize = 0;
            while idx < self.gate_outputs.len()
                invariant
                    idx <= self.gate_outputs@.len(),
                    self.gate_outputs@.len() == old(self).gates().len(),
                    forall|i: int| 0 <= i < idx ==> self.gate_outputs@[i] == false,
                    self.last_step == old(self).last_step,
                    self.last_reset_on == old(self).last_reset_on,
                    self.last_zero_on == old(self).last_zero_on,
                    self.last_forwards_clock_on == old(self).last_forwards_clock_on,
                    self.last_backwards_clock_on == old(self).last_backwards_clock_on,
                decreases self.gate_outputs@.len() - idx,
            {
                self.gate_outputs.set(idx, false);
                idx = idx + 1;
            }
            proof {
                assert(self.gate_outputs@ =~= reconcile_gates(
                    old(self).gates(),
                    old(self).spec_step(),
                    current_step@,
                ));
            }
            return ;
        }
        // Deassert the previous step's output, if one was active.
        if let Some(last_step) = self.last_step.get() {
            self.gate_outputs.set(last_step, false);
        }
        // Assert the current step's output.
        if let Some(current) = current_step.get() {
            self.gate_outputs.set(current, true);
        }
        proof {
            assert(self.gate_outputs@ =~= reconcile_gates(
                old(self).gates(),
                old(self).spec_step(),
                current_step@,
            ));
        }
    }
}

} // verus!
