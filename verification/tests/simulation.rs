use hegselmann_opinion_simulation::simulation::ConvergenceTracker;

#[test]
fn random_mean_tracker_never_converges() {
    let mut t = ConvergenceTracker::new(false, 50);
    for step in 1..=50 {
        t.observe(step, true);
        assert!(!t.converged());
    }
    assert_eq!(t.final_iteration(), 50);
}

#[test]
fn deterministic_tracker_follows_the_tolerance() {
    let mut t = ConvergenceTracker::new(true, 100);
    assert!(!t.converged());
    assert_eq!(t.final_iteration(), 100);
    t.observe(1, false);
    assert!(!t.converged());
    assert_eq!(t.final_iteration(), 1);
    t.observe(2, true);
    assert!(t.converged());
    assert_eq!(t.final_iteration(), 2);
}
