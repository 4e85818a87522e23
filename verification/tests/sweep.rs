use hegselmann_opinion_simulation::sweep::{fraction_digits, parse_mean_list};

#[test]
fn default_mean_list_parses() {
    assert_eq!(
        parse_mean_list("A,G,H,P0.01,P100,R"),
        vec!["A", "G", "H", "P0.01", "P100", "R"]
    );
}

#[test]
fn mean_list_entries_are_trimmed_and_empty_ones_dropped() {
    assert_eq!(parse_mean_list(" A , ,G,, "), vec!["A", "G"]);
    assert_eq!(parse_mean_list(""), Vec::<String>::new());
    assert_eq!(parse_mean_list(",,,"), Vec::<String>::new());
    assert_eq!(parse_mean_list("P 2"), vec!["P 2"]);
}

#[test]
fn fraction_digits_of_step_texts() {
    assert_eq!(fraction_digits("0.01"), 2);
    assert_eq!(fraction_digits("0.125"), 3);
    assert_eq!(fraction_digits("1"), 0);
    assert_eq!(fraction_digits("1."), 0);
    assert_eq!(fraction_digits(&format!("{}", 0.05f64)), 2);
}
