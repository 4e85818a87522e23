use hegselmann_opinion_simulation::metrics::Phase;
use hegselmann_opinion_simulation::record::{
    converged_count, mean_label_hash, terminal_row, trial_seed_labels,
};

#[test]
fn mean_label_hash_is_fnv1a() {
    assert_eq!(mean_label_hash(""), 14695981039346656037);
    assert_eq!(mean_label_hash("A"), 12638222384927744748);
    assert_eq!(mean_label_hash("G"), 12638220185904488326);
    assert_eq!(mean_label_hash("R"), 12638243275648680757);
    assert_eq!(mean_label_hash("P0.01"), 10975606203655528014);
}

#[test]
fn same_settings_give_the_same_seed_labels() {
    let eps = 0.15f64.to_bits();
    assert_eq!(trial_seed_labels("A", eps, 3), trial_seed_labels("A", eps, 3));
    assert_eq!(
        trial_seed_labels("A", eps, 3),
        vec![12638222384927744748, eps, 3]
    );
}

#[test]
fn each_setting_changes_the_seed_labels() {
    let base = trial_seed_labels("A", 0.15f64.to_bits(), 0);
    assert_ne!(base, trial_seed_labels("G", 0.15f64.to_bits(), 0));
    assert_ne!(base, trial_seed_labels("A", 0.20f64.to_bits(), 0));
    assert_ne!(base, trial_seed_labels("A", 0.15f64.to_bits(), 1));
}

#[test]
fn terminal_row_of_converged_and_censored_runs() {
    let r = terminal_row(true, 17, 100, 2);
    assert_eq!(r.t, 17);
    assert!(!r.censored);
    assert_eq!(r.budget, 100);
    assert_eq!(r.phase, Phase::Polarization);
    assert_eq!(r.outcome(), "converged");

    let r = terminal_row(false, 100, 100, 7);
    assert_eq!(r.t, 100);
    assert!(r.censored);
    assert_eq!(r.phase, Phase::Plurality);
    assert_eq!(r.n_occupied_classes, 7);
    assert_eq!(r.outcome(), "unconverged");
}

#[test]
fn converged_trials_are_counted() {
    assert_eq!(converged_count(&[true, false, true, true]), 3);
    assert_eq!(converged_count(&[false, false]), 0);
    assert_eq!(converged_count(&[]), 0);
}
