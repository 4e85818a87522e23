//! Bookkeeping of a simulation run: whether it converged and at which step
//! it ended.

use vstd::prelude::*;

verus! {

/// Tracks convergence over the observed steps of one simulation.
///
/// Only deterministic averaging operators (arithmetic, geometric, harmonic,
/// power) can converge; the random mean runs to the last step.
pub struct ConvergenceTracker {
    deterministic: bool,
    converged: bool,
    final_iteration: usize,
}

/// What the tracker records: whether the averaging operator is
/// deterministic, whether the last observed step converged, and the step at
/// which the run ended.
pub struct TrackerState {
    pub deterministic: bool,
    pub converged: bool,
    pub final_iteration: nat,
}

impl View for ConvergenceTracker {
    type V = TrackerState;

    closed spec fn view(&self) -> TrackerState {
        TrackerState {
            deterministic: self.deterministic,
            converged: self.converged,
            final_iteration: self.final_iteration as nat,
        }
    }
}

/// The state after observing step `t`, where `below_tol` tells whether the
/// largest opinion change of that step was below the tolerance.
pub open spec fn observe_spec(s: TrackerState, t: nat, below_tol: bool) -> TrackerState {
    TrackerState {
        deterministic: s.deterministic,
        converged: s.deterministic && below_tol,
        final_iteration: t,
    }
}

/// The state of a run with the given budget before any step is observed.
pub open spec fn initial_spec(deterministic: bool, max_iterations: nat) -> TrackerState {
    TrackerState { deterministic, converged: false, final_iteration: max_iterations }
}

/// The state after observing the steps `obs` in order, each a step number
/// and whether its largest change was below the tolerance.
pub open spec fn replay(s: TrackerState, obs: Seq<(nat, bool)>) -> TrackerState
    decreases obs.len(),
{
    if obs.len() == 0 {
        s
    } else {
        let prev = replay(s, obs.drop_last());
        observe_spec(prev, obs.last().0, obs.last().1)
    }
}

impl ConvergenceTracker {
    /// A tracker for a run with budget `max_iterations`: not converged, ending
    /// at the budget until a step is observed.
    pub fn new(deterministic: bool, max_iterations: usize) -> (r: Self)
        ensures
            r@ == initial_spec(deterministic, max_iterations as nat),
    {
        ConvergenceTracker { deterministic, converged: false, final_iteration: max_iterations }
    }

    /// Records step `t`; `below_tol` tells whether its largest opinion change
    /// was below the tolerance.
    pub fn observe(&mut self, t: usize, below_tol: bool)
        ensures
            final(self)@ == observe_spec(old(self)@, t as nat, below_tol),
    {
        self.converged = self.deterministic && below_tol;
        self.final_iteration = t;
    }

    /// Whether the last observed step converged.
    pub fn converged(&self) -> (r: bool)
        ensures
            r == self@.converged,
    {
        self.converged
    }

    /// The step at which the run ended (the budget until a step is observed).
    pub fn final_iteration(&self) -> (r: usize)
        ensures
            r as nat == self@.final_iteration,
    {
        self.final_iteration
    }
}

/// A run with the random mean never reports convergence, whatever steps it
/// observes.
pub proof fn lemma_random_mean_never_converges(max_iterations: nat, obs: Seq<(nat, bool)>)
    ensures
        !replay(initial_spec(false, max_iterations), obs).converged,
        !replay(initial_spec(false, max_iterations), obs).deterministic,
    decreases obs.len(),
{
    if obs.len() > 0 {
        lemma_random_mean_never_converges(max_iterations, obs.drop_last());
    }
}

/// A run reports convergence exactly when its operator is deterministic and
/// its last observed step was below the tolerance; it ends at its last
/// observed step, or at the budget when it observed none.
pub proof fn lemma_replay_outcome(deterministic: bool, max_iterations: nat, obs: Seq<(nat, bool)>)
    ensures
        replay(initial_spec(deterministic, max_iterations), obs).converged
            == (obs.len() > 0 && deterministic && obs.last().1),
        replay(initial_spec(deterministic, max_iterations), obs).final_iteration
            == (if obs.len() > 0 { obs.last().0 } else { max_iterations }),
        replay(initial_spec(deterministic, max_iterations), obs).deterministic == deterministic,
    decreases obs.len(),
{
    if obs.len() > 0 {
        lemma_replay_outcome(deterministic, max_iterations, obs.drop_last());
    }
}

} // verus!
