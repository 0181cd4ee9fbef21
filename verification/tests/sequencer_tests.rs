use step_sequencer::samples::{InputSelector, Samples, TransportSignals};
use step_sequencer::state::{State, Step};
use step_sequencer::{NUM_BUTTON_INPUTS, NUM_GATE_OUTPUTS};

fn transport(reset: bool, zero: bool, forwards: bool, backwards: bool) -> TransportSignals {
    TransportSignals {
        reset_on: reset,
        zero_on: zero,
        forwards_clock_on: forwards,
        backwards_clock_on: backwards,
    }
}

fn all_off() -> TransportSignals {
    transport(false, false, false, false)
}

fn buttons(held: &[usize]) -> Vec<bool> {
    let mut levels = vec![false; NUM_BUTTON_INPUTS];
    for &idx in held {
        levels[idx] = true;
    }
    levels
}

fn samples(signals: TransportSignals, held: &[usize]) -> Samples {
    Samples {
        transport: signals,
        buttons_on: buttons(held),
    }
}

fn asserted_gates(state: &State) -> Vec<usize> {
    (0..NUM_GATE_OUTPUTS).filter(|&i| state.gate_is_on(i)).collect()
}

/// Drive one forward-clock pulse: a rising edge, then the release.
fn pulse_forward(state: &mut State) {
    state.update(&samples(transport(false, false, true, false), &[]));
    state.update(&samples(all_off(), &[]));
}

#[test]
fn starts_at_step_zero_with_gate_zero_asserted() {
    let state = State::new(all_off());
    assert_eq!(state.current_step(), Some(0));
    assert_eq!(asserted_gates(&state), vec![0]);
}

#[test]
fn forward_clock_edge_advances_one_step() {
    let mut state = State::new(all_off());
    state.update(&samples(transport(false, false, true, false), &[]));
    assert_eq!(state.current_step(), Some(1));
    assert_eq!(asserted_gates(&state), vec![1]);
}

#[test]
fn backward_clock_edge_steps_back_with_wraparound() {
    let mut state = State::new(all_off());
    state.update(&samples(transport(false, false, false, true), &[]));
    assert_eq!(state.current_step(), Some(7));
    assert_eq!(asserted_gates(&state), vec![7]);
}

#[test]
fn forward_wraps_from_last_step_to_first() {
    let mut state = State::new(all_off());
    for _ in 0..7 {
        pulse_forward(&mut state);
    }
    assert_eq!(state.current_step(), Some(7));
    pulse_forward(&mut state);
    assert_eq!(state.current_step(), Some(0));
}

#[test]
fn edge_only_triggering_held_clock_advances_once() {
    let mut state = State::new(all_off());
    let held = samples(transport(false, false, true, false), &[]);
    state.update(&held);
    assert_eq!(state.current_step(), Some(1));
    // The signal stays active: no new edge, no further advance.
    let held = samples(transport(false, false, true, false), &[]);
    state.update(&held);
    assert_eq!(state.current_step(), Some(1));
    let held = samples(transport(false, false, true, false), &[]);
    state.update(&held);
    assert_eq!(state.current_step(), Some(1));
    // Release and assert again: a fresh edge advances once more.
    state.update(&samples(all_off(), &[]));
    assert_eq!(state.current_step(), Some(1));
    state.update(&samples(transport(false, false, true, false), &[]));
    assert_eq!(state.current_step(), Some(2));
}

#[test]
fn zero_edge_silences_all_outputs() {
    let mut state = State::new(all_off());
    pulse_forward(&mut state);
    assert_eq!(state.current_step(), Some(1));
    state.update(&samples(transport(false, true, false, false), &[]));
    assert_eq!(state.current_step(), None);
    assert_eq!(asserted_gates(&state), Vec::<usize>::new());
}

#[test]
fn reset_edge_returns_to_first_step() {
    let mut state = State::new(all_off());
    pulse_forward(&mut state);
    pulse_forward(&mut state);
    assert_eq!(state.current_step(), Some(2));
    state.update(&samples(transport(true, false, false, false), &[]));
    assert_eq!(state.current_step(), Some(0));
    assert_eq!(asserted_gates(&state), vec![0]);
}

#[test]
fn forward_clock_after_silence_resolves_to_first_step() {
    let mut state = State::new(all_off());
    state.update(&samples(transport(false, true, false, false), &[]));
    assert_eq!(state.current_step(), None);
    state.update(&samples(transport(false, false, true, false), &[]));
    assert_eq!(state.current_step(), Some(0));
}

#[test]
fn backward_clock_after_silence_resolves_to_last_step() {
    let mut state = State::new(all_off());
    state.update(&samples(transport(false, true, false, false), &[]));
    assert_eq!(state.current_step(), None);
    state.update(&samples(transport(false, false, false, true), &[]));
    assert_eq!(state.current_step(), Some(7));
}

#[test]
fn highest_held_button_wins() {
    let mut state = State::new(all_off());
    state.update(&samples(all_off(), &[2, 5]));
    assert_eq!(state.current_step(), Some(5));
    assert_eq!(asserted_gates(&state), vec![5]);
}

#[test]
fn held_button_preempts_clock_edge() {
    let mut state = State::new(all_off());
    state.update(&samples(transport(false, false, true, false), &[2, 5]));
    assert_eq!(state.current_step(), Some(5));
}

#[test]
fn held_button_preempts_zero_and_reset_edges() {
    let mut state = State::new(all_off());
    state.update(&samples(transport(true, true, false, false), &[3]));
    assert_eq!(state.current_step(), Some(3));
}

#[test]
fn zero_edge_preempts_clock_edges() {
    let mut state = State::new(all_off());
    state.update(&samples(transport(false, true, true, true), &[]));
    assert_eq!(state.current_step(), None);
}

#[test]
fn reset_edge_preempts_zero_edge() {
    let mut state = State::new(all_off());
    pulse_forward(&mut state);
    state.update(&samples(transport(true, true, false, false), &[]));
    assert_eq!(state.current_step(), Some(0));
}

#[test]
fn seeded_startup_sees_no_spurious_edge() {
    let seed = transport(true, true, true, true);
    let mut state = State::new(seed);
    state.update(&samples(seed, &[]));
    assert_eq!(state.current_step(), Some(0));
    assert_eq!(asserted_gates(&state), vec![0]);
}

#[test]
fn at_most_one_gate_asserted_across_a_run() {
    let mut state = State::new(all_off());
    let iterations: Vec<Samples> = vec![
        samples(transport(false, false, true, false), &[]),
        samples(transport(false, false, true, false), &[7]),
        samples(all_off(), &[]),
        samples(transport(false, true, false, false), &[]),
        samples(transport(false, false, false, true), &[]),
        samples(transport(true, false, true, true), &[1, 4]),
        samples(all_off(), &[]),
    ];
    for sample in &iterations {
        state.update(sample);
        let on = asserted_gates(&state);
        match state.current_step() {
            Some(step) => assert_eq!(on, vec![step]),
            None => assert_eq!(on, Vec::<usize>::new()),
        }
    }
}

#[test]
fn reconcile_is_idempotent() {
    let mut state = State::new(all_off());
    let current = Step::new(Some(0));
    state.update_outputs_for_current_step(&current);
    let once = asserted_gates(&state);
    state.update_outputs_for_current_step(&current);
    assert_eq!(asserted_gates(&state), once);
    assert_eq!(once, vec![0]);
}

#[test]
fn reconcile_with_no_step_deasserts_everything() {
    let mut state = State::new(all_off());
    let current = Step::new(None);
    state.update_outputs_for_current_step(&current);
    assert_eq!(asserted_gates(&state), Vec::<usize>::new());
    state.update_outputs_for_current_step(&current);
    assert_eq!(asserted_gates(&state), Vec::<usize>::new());
}

#[test]
fn samples_report_each_selector() {
    let sample = samples(transport(true, false, true, false), &[0, 6]);
    assert!(sample.is_on(InputSelector::Reset));
    assert!(!sample.is_on(InputSelector::Zero));
    assert!(sample.is_on(InputSelector::ForwardsClock));
    assert!(!sample.is_on(InputSelector::BackwardsClock));
    assert!(sample.is_on(InputSelector::Button(0)));
    assert!(!sample.is_on(InputSelector::Button(3)));
    assert!(sample.is_on(InputSelector::Button(6)));
}
