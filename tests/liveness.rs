use move_bytecode_verifier::liveness::{JoinResult, LivenessState};
use std::collections::BTreeSet;

fn state(vars: &[u64]) -> LivenessState {
    LivenessState(vars.iter().copied().collect::<BTreeSet<u64>>())
}

#[test]
fn initial_is_empty() {
    assert!(LivenessState::initial().0.is_empty());
}

#[test]
fn extend_is_union() {
    let mut s = state(&[1, 2]);
    s.extend(&state(&[2, 3]));
    assert_eq!(s, state(&[1, 2, 3]));
}

#[test]
fn join_reports_change() {
    let mut s = state(&[1, 2]);
    assert_eq!(s.join(&state(&[2])), JoinResult::Unchanged);
    assert_eq!(s, state(&[1, 2]));
    assert_eq!(s.join(&state(&[4])), JoinResult::Changed);
    assert_eq!(s, state(&[1, 2, 4]));
    assert_eq!(s.join(&LivenessState::initial()), JoinResult::Unchanged);
}
