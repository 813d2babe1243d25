//! Retry policy of the display probe.
//!
//! One TCP connection attempt is made per retry slot. The policy maps the
//! classification of each attempt to what happens next: success finishes at
//! once, a refused attempt is retried after a pacing delay of one timeout,
//! a timed-out attempt is retried immediately (the timeout already consumed
//! the wait), and any other fault aborts without retrying. The caller runs
//! the attempts and the delays; this module decides them.

use vstd::prelude::*;

use crate::errors::ProbeOutcome;

verus! {

/// Classification of one TCP connection attempt, as the caller observed it.
#[derive(Debug)]
pub enum AttemptOutcome {
    /// The connection completed.
    Connected,
    /// The remote actively rejected the attempt.
    Refused,
    /// No response within the allotted window.
    TimedOut,
    /// Any other fault, with its description; retries cannot fix it.
    Fatal(String),
}

/// What the prober must do after one attempt.
#[derive(Debug)]
pub enum ProbeAction {
    /// Stop and report this outcome.
    Finish(ProbeOutcome),
    /// Make the next attempt immediately.
    RetryNow,
    /// Sleep for one timeout, then make the next attempt.
    RetryAfterDelay,
}

/// The policy table: attempt classification to next action.
pub open spec fn spec_step(outcome: AttemptOutcome, attempt: nat, retries: nat) -> ProbeAction {
    match outcome {
        AttemptOutcome::Connected => ProbeAction::Finish(ProbeOutcome::Reachable),
        AttemptOutcome::Fatal(detail) => ProbeAction::Finish(ProbeOutcome::Error(detail)),
        AttemptOutcome::TimedOut => if attempt < retries {
            ProbeAction::RetryNow
        } else {
            ProbeAction::Finish(ProbeOutcome::Unreachable)
        },
        AttemptOutcome::Refused => if attempt < retries {
            ProbeAction::RetryAfterDelay
        } else {
            ProbeAction::Finish(ProbeOutcome::Unreachable)
        },
    }
}

/// Decide what follows attempt number `attempt` out of `retries`, given how
/// the attempt went.
pub fn probe_step(outcome: AttemptOutcome, attempt: u16, retries: u16) -> (r: ProbeAction)
    requires
        1 <= attempt <= retries,
    ensures
        r == spec_step(outcome, attempt as nat, retries as nat),
{
    match outcome {
        AttemptOutcome::Connected => ProbeAction::Finish(ProbeOutcome::Reachable),
        AttemptOutcome::Fatal(detail) => ProbeAction::Finish(ProbeOutcome::Error(detail)),
        AttemptOutcome::TimedOut => if attempt < retries {
            ProbeAction::RetryNow
        } else {
            ProbeAction::Finish(ProbeOutcome::Unreachable)
        },
        AttemptOutcome::Refused => if attempt < retries {
            ProbeAction::RetryAfterDelay
        } else {
            ProbeAction::Finish(ProbeOutcome::Unreachable)
        },
    }
}

/// The whole probe run, starting at attempt number `attempt`: the final
/// outcome, how many attempts are made, and how many pacing delays are slept.
/// `outcomes[0]` is how attempt number `attempt` goes, `outcomes[1]` the next
/// one, and so on.
pub open spec fn spec_run(
    outcomes: Seq<AttemptOutcome>,
    attempt: nat,
    retries: nat,
) -> (ProbeOutcome, nat, nat)
    recommends
        1 <= attempt <= retries,
        outcomes.len() >= retries - attempt + 1,
    decreases retries - attempt,
{
    match spec_step(outcomes[0], attempt, retries) {
        ProbeAction::Finish(o) => (o, 1nat, 0nat),
        ProbeAction::RetryNow => {
            let t = spec_run(outcomes.drop_first(), attempt + 1, retries);
            (t.0, t.1 + 1, t.2)
        },
        ProbeAction::RetryAfterDelay => {
            let t = spec_run(outcomes.drop_first(), attempt + 1, retries);
            (t.0, t.1 + 1, t.2 + 1)
        },
    }
}

/// The whole probe run from the first attempt.
pub open spec fn spec_probe(outcomes: Seq<AttemptOutcome>, retries: nat) -> (ProbeOutcome, nat, nat)
    recommends
        1 <= retries,
        outcomes.len() >= retries,
{
    spec_run(outcomes, 1, retries)
}

fn simulate_from(rest: Vec<AttemptOutcome>, attempt: u16, retries: u16) -> (r: (
    ProbeOutcome,
    usize,
    usize,
))
    requires
        1 <= attempt <= retries,
        rest@.len() >= retries - attempt + 1,
    ensures
        r.0 == spec_run(rest@, attempt as nat, retries as nat).0,
        r.1 == spec_run(rest@, attempt as nat, retries as nat).1,
        r.2 == spec_run(rest@, attempt as nat, retries as nat).2,
        r.2 < r.1 <= retries - attempt + 1,
    decreases retries - attempt,
{
    let mut rest = rest;
    let ghost orig = rest@;
    let first = rest.remove(0);
    proof {
        assert(rest@ =~= orig.drop_first());
    }
    match probe_step(first, attempt, retries) {
        ProbeAction::Finish(o) => (o, 1, 0),
        ProbeAction::RetryNow => {
            let t = simulate_from(rest, attempt + 1, retries);
            (t.0, t.1 + 1, t.2)
        },
        ProbeAction::RetryAfterDelay => {
            let t = simulate_from(rest, attempt + 1, retries);
            (t.0, t.1 + 1, t.2 + 1)
        },
    }
}

/// Run the whole retry policy against a given list of attempt
/// classifications, as a probe driver would: the final outcome, the number
/// of attempts made, and the number of pacing delays slept.
pub fn simulate_probe(outcomes: Vec<AttemptOutcome>, retries: u16) -> (r: (
    ProbeOutcome,
    usize,
    usize,
))
    requires
        1 <= retries,
        outcomes@.len() >= retries,
    ensures
        r.0 == spec_probe(outcomes@, retries as nat).0,
        r.1 == spec_probe(outcomes@, retries as nat).1,
        r.2 == spec_probe(outcomes@, retries as nat).2,
        r.2 < r.1 <= retries,
{
    simulate_from(outcomes, 1, retries)
}

proof fn lemma_run_all_refused(outcomes: Seq<AttemptOutcome>, attempt: nat, retries: nat)
    requires
        1 <= attempt <= retries,
        outcomes.len() >= retries - attempt + 1,
        forall|i: int| 0 <= i < outcomes.len() ==> outcomes[i] is Refused,
    ensures
        spec_run(outcomes, attempt, retries) == (
            ProbeOutcome::Unreachable,
            (retries - attempt + 1) as nat,
            (retries - attempt) as nat,
        ),
    decreases retries - attempt,
{
    if attempt < retries {
        lemma_run_all_refused(outcomes.drop_first(), attempt + 1, retries);
    }
}

/// Law: when every attempt is refused, the probe makes exactly `retries`
/// attempts, sleeps exactly `retries - 1` pacing delays (none after the last
/// attempt), and reports that no server is listening.
pub proof fn lemma_probe_all_refused(outcomes: Seq<AttemptOutcome>, retries: nat)
    requires
        1 <= retries,
        outcomes.len() >= retries,
        forall|i: int| 0 <= i < outcomes.len() ==> outcomes[i] is Refused,
    ensures
        spec_probe(outcomes, retries) == (
            ProbeOutcome::Unreachable,
            retries,
            (retries - 1) as nat,
        ),
{
    lemma_run_all_refused(outcomes, 1, retries);
}

proof fn lemma_run_all_timed_out(outcomes: Seq<AttemptOutcome>, attempt: nat, retries: nat)
    requires
        1 <= attempt <= retries,
        outcomes.len() >= retries - attempt + 1,
        forall|i: int| 0 <= i < outcomes.len() ==> outcomes[i] is TimedOut,
    ensures
        spec_run(outcomes, attempt, retries) == (
            ProbeOutcome::Unreachable,
            (retries - attempt + 1) as nat,
            0nat,
        ),
    decreases retries - attempt,
{
    if attempt < retries {
        lemma_run_all_timed_out(outcomes.drop_first(), attempt + 1, retries);
    }
}

/// Law: when every attempt times out, the probe makes exactly `retries`
/// attempts back to back, sleeps no pacing delay at all, and reports that no
/// server is listening.
pub proof fn lemma_probe_all_timed_out(outcomes: Seq<AttemptOutcome>, retries: nat)
    requires
        1 <= retries,
        outcomes.len() >= retries,
        forall|i: int| 0 <= i < outcomes.len() ==> outcomes[i] is TimedOut,
    ensures
        spec_probe(outcomes, retries) == (ProbeOutcome::Unreachable, retries, 0nat),
{
    lemma_run_all_timed_out(outcomes, 1, retries);
}

/// Law: when the first attempt connects, the probe finishes on attempt one
/// with no pacing delay, whatever the retry budget.
pub proof fn lemma_probe_immediate_success(outcomes: Seq<AttemptOutcome>, retries: nat)
    requires
        1 <= retries,
        outcomes.len() >= retries,
        outcomes[0] is Connected,
    ensures
        spec_probe(outcomes, retries) == (ProbeOutcome::Reachable, 1nat, 0nat),
{
}

} // verus!
