//! What a timing harness needs around the sort: its settings and how the
//! command line changes them, random input, the check that an output is in
//! order, and the average of the times measured.

use crate::count::{count_of, parse_count};
use crate::order::sorted;
use vstd::prelude::*;

verus! {

/// One value from `rand::random`, the generator of the calling thread. The
/// value is a matter of chance: nothing is claimed of it.
#[verifier::external_body]
fn random_value() -> usize {
    rand::random::<usize>()
}

/// Makes an array of `size` random values.
pub fn generate_random_array(size: usize) -> (ret: Vec<usize>)
    ensures
        ret@.len() == size,
{
    let mut ret: Vec<usize> = Vec::new();
    let mut filled: usize = 0;
    while filled < size
        invariant
            filled <= size,
            ret@.len() == filled,
        decreases size - filled,
    {
        ret.push(random_value());
        filled += 1;
    }
    ret
}

/// Tells whether `arr` is in ascending order.
pub fn ensure_sorted(arr: &[usize]) -> (in_order: bool)
    ensures
        in_order == sorted(arr@),
        in_order == (forall|i: int, j: int| 0 <= i < j < arr@.len() ==> arr@[i] <= arr@[j]),
{
    let mut checked: usize = 1;
    while checked < arr.len()
        invariant
            1 <= checked,
            forall|i: int, j: int|
                0 <= i < j < checked && j < arr@.len() ==> #[trigger] arr@[i] <= #[trigger] arr@[j],
        decreases arr.len() - checked,
    {
        if arr[checked] < arr[checked - 1] {
            return false;
        }
        checked += 1;
    }
    true
}

/// The settings of a benchmark.
#[derive(Clone, Copy, Debug, PartialEq, Eq, Structural)]
pub struct Benchmark {
    /// How many times the sort is run and timed.
    pub num_trials: usize,
    /// How many values each trial sorts.
    pub trial_size: usize,
    /// How little is reported: 0 for every step, 1 for the number of each
    /// trial, more for neither.
    pub quiet: u8,
    /// Whether the command line is still to be applied.
    pub parse_args: bool,
}

/// What was found on a command line.
#[derive(Debug)]
pub struct CommandLine {
    /// How often `-q` was given.
    pub q_count: usize,
    /// Whether `--quiet` was given.
    pub quiet: bool,
    /// The text given with `--trialsize`, if it was given.
    pub trial_size: Option<String>,
    /// The text given with `--numtrials`, if it was given.
    pub num_trials: Option<String>,
}

/// Why a command line was not accepted.
#[derive(Clone, Copy, Debug, PartialEq, Eq, Structural)]
pub enum OptionError {
    /// The text given with `--trialsize` writes no count.
    TrialSize,
    /// The text given with `--numtrials` writes no count.
    NumTrials,
}

/// How much a benchmark reports of each trial.
#[derive(Clone, Copy, Debug, PartialEq, Eq, Structural)]
pub enum Verbosity {
    /// Every step of the trial, and the time it took.
    Steps,
    /// The number of the trial.
    TrialNumber,
    /// Nothing.
    Nothing,
}

impl OptionError {
    /// The message of the error.
    pub fn message(&self) -> (text: &'static str)
        ensures
            text@ == match *self {
                OptionError::TrialSize => "Trial size must be an integer"@,
                OptionError::NumTrials => "Number of trials must be an integer"@,
            },
    {
        match self {
            OptionError::TrialSize => "Trial size must be an integer",
            OptionError::NumTrials => "Number of trials must be an integer",
        }
    }
}

impl CommandLine {
    /// The quiet level that the command line asks for, if it asks for one:
    /// with `-q` or `--quiet` given it is the number of times `-q` was given,
    /// cut to eight bits, and at least 1.
    pub open spec fn quiet_level(self) -> Option<u8> {
        if self.q_count > 0 || self.quiet {
            if self.q_count % 256 == 0 {
                Some(1u8)
            } else {
                Some((self.q_count % 256) as u8)
            }
        } else {
            None
        }
    }

    /// The count given for an option, the count kept where the option was
    /// not given, or nothing where its text writes no count.
    pub open spec fn count_or(given: Option<String>, kept: usize) -> Option<usize> {
        match given {
            Some(text) => count_of(text@),
            None => Some(kept),
        }
    }
}

impl Benchmark {
    /// The settings that a benchmark starts with: one trial of ten values,
    /// every step reported, the command line still to be applied.
    pub fn new() -> (settings: Benchmark)
        ensures
            settings == (Benchmark { num_trials: 1, trial_size: 10, quiet: 0, parse_args: true }),
    {
        Benchmark { num_trials: 1, trial_size: 10, quiet: 0, parse_args: true }
    }

    /// The settings after `found` has been applied to `self`, or the error
    /// of the first option whose text writes no count, the trial size before
    /// the number of trials. Settings that have had a command line applied
    /// stay as they are.
    pub open spec fn with_options(self, found: CommandLine) -> Result<Benchmark, OptionError> {
        if !self.parse_args {
            Ok(self)
        } else {
            match (
                CommandLine::count_or(found.trial_size, self.trial_size),
                CommandLine::count_or(found.num_trials, self.num_trials),
            ) {
                (None, _) => Err(OptionError::TrialSize),
                (Some(_), None) => Err(OptionError::NumTrials),
                (Some(trial_size), Some(num_trials)) => Ok(
                    Benchmark {
                        num_trials,
                        trial_size,
                        quiet: match found.quiet_level() {
                            Some(level) => level,
                            None => self.quiet,
                        },
                        parse_args: false,
                    },
                ),
            }
        }
    }

    /// Applies what was found on the command line, once: a second call
    /// changes nothing. On an error the settings stay as they were.
    pub fn parse_opts(&mut self, found: &CommandLine) -> (outcome: Result<(), OptionError>)
        ensures
            match old(self).with_options(*found) {
                Ok(settings) => outcome is Ok && *final(self) == settings,
                Err(error) => outcome == Err::<(), OptionError>(error) && *final(self) == *old(self),
            },
    {
        if !self.parse_args {
            return Ok(());
        }
        let mut quiet = self.quiet;
        if found.q_count > 0 || found.quiet {
            quiet = (found.q_count % 256) as u8;
            if quiet < 1 {
                quiet = 1;
            }
        }
        let trial_size = match &found.trial_size {
            Some(text) => match parse_count(text.as_str()) {
                Some(size) => size,
                None => {
                    return Err(OptionError::TrialSize);
                },
            },
            None => self.trial_size,
        };
        let num_trials = match &found.num_trials {
            Some(text) => match parse_count(text.as_str()) {
                Some(trials) => trials,
                None => {
                    return Err(OptionError::NumTrials);
                },
            },
            None => self.num_trials,
        };
        self.quiet = quiet;
        self.trial_size = trial_size;
        self.num_trials = num_trials;
        self.parse_args = false;
        Ok(())
    }

    /// How much is reported of each trial.
    pub fn verbosity(&self) -> (level: Verbosity)
        ensures
            level == match self.quiet {
                0 => Verbosity::Steps,
                1 => Verbosity::TrialNumber,
                _ => Verbosity::Nothing,
            },
    {
        if self.quiet == 0 {
            Verbosity::Steps
        } else if self.quiet == 1 {
            Verbosity::TrialNumber
        } else {
            Verbosity::Nothing
        }
    }
}

/// The sum of `times`.
pub open spec fn total_time(times: Seq<u64>) -> nat
    decreases times.len(),
{
    if times.len() == 0 {
        0
    } else {
        total_time(times.drop_last()) + times.last() as nat
    }
}

/// The average of the times measured, rounded down; nothing where no time
/// was measured.
pub fn average_time(sort_times: &Vec<u64>) -> (average: Option<u64>)
    ensures
        sort_times@.len() == 0 ==> average is None,
        sort_times@.len() > 0 ==> average == Some(
            (total_time(sort_times@) / sort_times@.len()) as u64,
        ),
        sort_times@.len() > 0 ==> total_time(sort_times@) / sort_times@.len() <= u64::MAX,
{
    let trials = sort_times.len();
    if trials == 0 {
        return None;
    }
    let mut sum: u128 = 0;
    let mut at: usize = 0;
    while at < trials
        invariant
            at <= trials,
            trials == sort_times@.len(),
            sum == total_time(sort_times@.take(at as int)),
            sum <= at * 0xffff_ffff_ffff_ffff,
        decreases trials - at,
    {
        assert(sort_times@.take(at + 1).drop_last() =~= sort_times@.take(at as int));
        sum = sum + sort_times[at] as u128;
        at += 1;
    }
    assert(sort_times@.take(at as int) =~= sort_times@);
    let average = sum / (trials as u128);
    assert(average <= 0xffff_ffff_ffff_ffff) by (nonlinear_arith)
        requires
            average == sum / (trials as u128),
            sum <= trials * 0xffff_ffff_ffff_ffff,
            trials > 0,
    ;
    Some(average as u64)
}

} // verus!
