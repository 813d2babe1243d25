use x11_host_probe::errors::ProbeOutcome;
use x11_host_probe::probe::simulate_probe;
use x11_host_probe::probe::AttemptOutcome;

#[test]
fn immediate_accept_connects_on_first_attempt() {
    // A listener that accepts at once: one attempt, no pacing sleep.
    let outcomes = vec![AttemptOutcome::Connected, AttemptOutcome::Connected, AttemptOutcome::Connected];
    let (outcome, attempts, delays) = simulate_probe(outcomes, 3);
    assert!(matches!(outcome, ProbeOutcome::Reachable));
    assert_eq!(attempts, 1);
    assert_eq!(delays, 0);
}

#[test]
fn refused_every_attempt_paces_between_attempts() {
    // Refused on every attempt with three retries: exactly three attempts,
    // exactly two pacing sleeps, and the display is reported absent.
    let outcomes = vec![AttemptOutcome::Refused, AttemptOutcome::Refused, AttemptOutcome::Refused];
    let (outcome, attempts, delays) = simulate_probe(outcomes, 3);
    assert!(matches!(outcome, ProbeOutcome::Unreachable));
    assert_eq!(attempts, 3);
    assert_eq!(delays, 2);
}

#[test]
fn timeout_every_attempt_runs_back_to_back() {
    // Timeouts already consumed the wait: no added sleep at all.
    let outcomes = vec![AttemptOutcome::TimedOut, AttemptOutcome::TimedOut, AttemptOutcome::TimedOut];
    let (outcome, attempts, delays) = simulate_probe(outcomes, 3);
    assert!(matches!(outcome, ProbeOutcome::Unreachable));
    assert_eq!(attempts, 3);
    assert_eq!(delays, 0);
}

#[test]
fn late_success_after_mixed_failures() {
    let outcomes = vec![
        AttemptOutcome::TimedOut,
        AttemptOutcome::Refused,
        AttemptOutcome::Connected,
    ];
    let (outcome, attempts, delays) = simulate_probe(outcomes, 3);
    assert!(matches!(outcome, ProbeOutcome::Reachable));
    assert_eq!(attempts, 3);
    assert_eq!(delays, 1);
}

#[test]
fn fatal_fault_aborts_without_retrying() {
    let outcomes = vec![
        AttemptOutcome::TimedOut,
        AttemptOutcome::Fatal(String::from("network unreachable")),
        AttemptOutcome::Connected,
    ];
    let (outcome, attempts, delays) = simulate_probe(outcomes, 3);
    match outcome {
        ProbeOutcome::Error(detail) => assert_eq!(detail, "network unreachable"),
        _ => panic!("expected a hard error"),
    }
    assert_eq!(attempts, 2);
    assert_eq!(delays, 0);
}

#[test]
fn single_retry_refused_is_unreachable_without_sleep() {
    let outcomes = vec![AttemptOutcome::Refused];
    let (outcome, attempts, delays) = simulate_probe(outcomes, 1);
    assert!(matches!(outcome, ProbeOutcome::Unreachable));
    assert_eq!(attempts, 1);
    assert_eq!(delays, 0);
}
