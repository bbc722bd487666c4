use parsort::bench::{
    average_time, ensure_sorted, generate_random_array, Benchmark, CommandLine, OptionError,
    Verbosity,
};

fn nothing_given() -> CommandLine {
    CommandLine { q_count: 0, quiet: false, trial_size: None, num_trials: None }
}

#[test]
fn random_array_has_the_size_asked_for() {
    assert_eq!(generate_random_array(0).len(), 0);
    assert_eq!(generate_random_array(1).len(), 1);
    assert_eq!(generate_random_array(10).len(), 10);
    assert_eq!(generate_random_array(1000).len(), 1000);
}

#[test]
fn random_arrays_differ() {
    let first = generate_random_array(64);
    let second = generate_random_array(64);
    assert_ne!(first, second);
}

#[test]
fn ensure_sorted_accepts_ascending_input() {
    assert!(ensure_sorted(&[]));
    assert!(ensure_sorted(&[5]));
    assert!(ensure_sorted(&[0, 0, 1, 2, 2, 3]));
    assert!(ensure_sorted(&[1, 2, 3, 5, 8, 9]));
}

#[test]
fn ensure_sorted_rejects_a_descent() {
    assert!(!ensure_sorted(&[2, 1]));
    assert!(!ensure_sorted(&[1, 2, 3, 2]));
    assert!(!ensure_sorted(&[5, 3, 8, 1, 9, 2]));
    assert!(!ensure_sorted(&[0, 1, 0]));
}

#[test]
fn new_benchmark_has_the_default_settings() {
    let bench = Benchmark::new();
    assert_eq!(bench.num_trials, 1);
    assert_eq!(bench.trial_size, 10);
    assert_eq!(bench.quiet, 0);
    assert!(bench.parse_args);
}

#[test]
fn empty_command_line_keeps_the_defaults() {
    let mut bench = Benchmark::new();
    assert_eq!(bench.parse_opts(&nothing_given()), Ok(()));
    assert_eq!(bench, Benchmark { num_trials: 1, trial_size: 10, quiet: 0, parse_args: false });
}

#[test]
fn quiet_level_counts_the_short_flag() {
    let mut bench = Benchmark::new();
    let found = CommandLine { q_count: 2, ..nothing_given() };
    assert_eq!(bench.parse_opts(&found), Ok(()));
    assert_eq!(bench.quiet, 2);
}

#[test]
fn long_quiet_flag_alone_gives_level_one() {
    let mut bench = Benchmark::new();
    let found = CommandLine { quiet: true, ..nothing_given() };
    assert_eq!(bench.parse_opts(&found), Ok(()));
    assert_eq!(bench.quiet, 1);
}

#[test]
fn quiet_level_keeps_the_low_eight_bits_and_is_at_least_one() {
    let mut bench = Benchmark::new();
    assert_eq!(bench.parse_opts(&CommandLine { q_count: 256, ..nothing_given() }), Ok(()));
    assert_eq!(bench.quiet, 1);
    let mut bench = Benchmark::new();
    assert_eq!(bench.parse_opts(&CommandLine { q_count: 258, ..nothing_given() }), Ok(()));
    assert_eq!(bench.quiet, 2);
    let mut bench = Benchmark::new();
    assert_eq!(bench.parse_opts(&CommandLine { q_count: 255, quiet: true, ..nothing_given() }), Ok(()));
    assert_eq!(bench.quiet, 255);
}

#[test]
fn counts_are_read_from_the_options() {
    let mut bench = Benchmark::new();
    let found = CommandLine {
        trial_size: Some(String::from("10000")),
        num_trials: Some(String::from("25")),
        ..nothing_given()
    };
    assert_eq!(bench.parse_opts(&found), Ok(()));
    assert_eq!(bench, Benchmark { num_trials: 25, trial_size: 10_000, quiet: 0, parse_args: false });
}

#[test]
fn bad_trial_size_is_an_error_and_changes_nothing() {
    let mut bench = Benchmark::new();
    let found = CommandLine {
        q_count: 3,
        trial_size: Some(String::from("many")),
        num_trials: Some(String::from("4")),
        ..nothing_given()
    };
    assert_eq!(bench.parse_opts(&found), Err(OptionError::TrialSize));
    assert_eq!(bench, Benchmark::new());
}

#[test]
fn bad_number_of_trials_is_an_error_and_changes_nothing() {
    let mut bench = Benchmark::new();
    let found = CommandLine {
        trial_size: Some(String::from("4")),
        num_trials: Some(String::from("-4")),
        ..nothing_given()
    };
    assert_eq!(bench.parse_opts(&found), Err(OptionError::NumTrials));
    assert_eq!(bench, Benchmark::new());
}

#[test]
fn bad_trial_size_is_reported_before_bad_number_of_trials() {
    let mut bench = Benchmark::new();
    let found = CommandLine {
        trial_size: Some(String::new()),
        num_trials: Some(String::new()),
        ..nothing_given()
    };
    assert_eq!(bench.parse_opts(&found), Err(OptionError::TrialSize));
}

#[test]
fn command_line_is_applied_once() {
    let mut bench = Benchmark::new();
    let first = CommandLine { q_count: 1, trial_size: Some(String::from("7")), ..nothing_given() };
    assert_eq!(bench.parse_opts(&first), Ok(()));
    let second = CommandLine {
        q_count: 5,
        trial_size: Some(String::from("oops")),
        num_trials: Some(String::from("9")),
        ..nothing_given()
    };
    assert_eq!(bench.parse_opts(&second), Ok(()));
    assert_eq!(bench, Benchmark { num_trials: 1, trial_size: 7, quiet: 1, parse_args: false });
}

#[test]
fn error_messages() {
    assert_eq!(OptionError::TrialSize.message(), "Trial size must be an integer");
    assert_eq!(OptionError::NumTrials.message(), "Number of trials must be an integer");
}

#[test]
fn verbosity_follows_the_quiet_level() {
    let mut bench = Benchmark::new();
    assert_eq!(bench.verbosity(), Verbosity::Steps);
    bench.quiet = 1;
    assert_eq!(bench.verbosity(), Verbosity::TrialNumber);
    bench.quiet = 2;
    assert_eq!(bench.verbosity(), Verbosity::Nothing);
    bench.quiet = 255;
    assert_eq!(bench.verbosity(), Verbosity::Nothing);
}

#[test]
fn average_of_no_time_is_nothing() {
    assert_eq!(average_time(&Vec::new()), None);
}

#[test]
fn average_is_the_sum_over_the_number_rounded_down() {
    assert_eq!(average_time(&vec![7]), Some(7));
    assert_eq!(average_time(&vec![10, 20, 30]), Some(20));
    assert_eq!(average_time(&vec![1, 2]), Some(1));
    assert_eq!(average_time(&vec![0, 0, 5]), Some(1));
}

#[test]
fn average_of_the_largest_times_does_not_overflow() {
    assert_eq!(average_time(&vec![u64::MAX, u64::MAX, u64::MAX]), Some(u64::MAX));
    assert_eq!(average_time(&vec![u64::MAX, u64::MAX - 2]), Some(u64::MAX - 1));
}
