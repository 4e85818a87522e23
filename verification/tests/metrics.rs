use hegselmann_opinion_simulation::metrics::{consensus_sample_indices, occupied_class_count, Phase};

/// Bins opinions at the class resolution used by the simulation.
fn bins_of(opinions: &[f64]) -> Vec<i64> {
    opinions.iter().map(|&x| (x / 1e-4).round() as i64).collect()
}

/// The smallest ε whose sample means consensus.
fn brink(samples: &[(f64, usize)]) -> Option<f64> {
    let counts: Vec<usize> = samples.iter().map(|s| s.1).collect();
    consensus_sample_indices(&counts)
        .iter()
        .map(|&i| samples[i].0)
        .fold(None, |acc, eps| match acc {
            None => Some(eps),
            Some(best) => Some(f64::min(best, eps)),
        })
}

#[test]
fn single_cluster_is_one_class() {
    let v = vec![0.5, 0.5000001, 0.4999999];
    assert_eq!(occupied_class_count(bins_of(&v)), 1);
}

#[test]
fn distinct_opinions_count_as_classes() {
    let v = vec![0.1, 0.5, 0.9];
    assert_eq!(occupied_class_count(bins_of(&v)), 3);
}

#[test]
fn phase_classification() {
    assert_eq!(Phase::classify(1), Phase::Consensus);
    assert_eq!(Phase::classify(2), Phase::Polarization);
    assert_eq!(Phase::classify(5), Phase::Plurality);
}

#[test]
fn brink_is_smallest_consensus_eps() {
    let samples = [(0.05, 8), (0.10, 3), (0.20, 1), (0.30, 1)];
    assert_eq!(brink(&samples), Some(0.20));
}

#[test]
fn brink_none_when_no_consensus() {
    let samples = [(0.05, 8), (0.10, 3)];
    assert_eq!(brink(&samples), None);
}

#[test]
fn empty_profile_is_consensus_with_no_class() {
    assert_eq!(occupied_class_count(Vec::new()), 0);
    assert_eq!(Phase::classify(0), Phase::Consensus);
}

#[test]
fn occupied_classes_count_distinct_bins_in_any_order() {
    assert_eq!(occupied_class_count(vec![7, -3, 7, 0, -3, 7]), 3);
    assert_eq!(occupied_class_count(vec![i64::MAX, i64::MIN]), 2);
    assert_eq!(occupied_class_count(vec![4]), 1);
}

#[test]
fn phase_codes_and_labels() {
    assert_eq!(Phase::Consensus.code(), 1);
    assert_eq!(Phase::Polarization.code(), 2);
    assert_eq!(Phase::Plurality.code(), 3);
    assert_eq!(Phase::Consensus.label(), "consensus");
    assert_eq!(Phase::Polarization.label(), "polarization");
    assert_eq!(Phase::Plurality.label(), "plurality");
    assert_eq!(Phase::classify(3).code(), 3);
    assert_eq!(Phase::classify(usize::MAX), Phase::Plurality);
}

#[test]
fn consensus_samples_are_those_with_exactly_one_class() {
    assert_eq!(consensus_sample_indices(&[8, 1, 3, 0, 1]), vec![1, 4]);
    assert_eq!(consensus_sample_indices(&[2, 5]), Vec::<usize>::new());
    assert_eq!(consensus_sample_indices(&[]), Vec::<usize>::new());
}

#[test]
fn brink_skips_samples_with_no_class() {
    let samples = [(0.05, 0), (0.20, 1)];
    assert_eq!(brink(&samples), Some(0.20));
}
