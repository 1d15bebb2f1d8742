//! The run configuration.
//!
//! An explicit value object with a named field for everything one run needs:
//! `k`, the batch size, the dataset paths, the query text, and the limits on
//! how many samples to load and to evaluate. The command line is read
//! elsewhere; here stand the fields and the built-in values every run starts
//! from.

use vstd::prelude::*;

verus! {

/// One run's configuration.
#[derive(Clone, Debug)]
pub struct Args {
    /// How many nearest neighbors vote.
    pub k: usize,
    /// How many training rows to load at most.
    pub train_samples: i32,
    /// How many corpus indices one worker's batch holds at most.
    pub batch_size: usize,
    /// The training dataset.
    pub train_path: String,
    /// A test dataset; its presence selects evaluation mode.
    pub test_path: Option<String>,
    /// The query text for single-prediction mode.
    pub test_sample: String,
    /// How many test samples to evaluate at most.
    pub num_test_samples: usize,
    /// Print usage and do no work.
    pub help: bool,
}

impl Args {
    /// The configuration a run starts from before any option is read.
    pub fn default() -> (a: Args)
        ensures
            a.k == 10,
            a.train_samples == 120000,
            a.batch_size == 10000,
            a.train_path@ == "data/ag_news/train.csv"@,
            a.test_path is None,
            a.test_sample@
                == "2 Magnificent Artificial Intelligence (AI) Growth Stocks Set to Join Apple and Microsoft in the $3 Trillion Club by 2030"@,
            a.num_test_samples == 1000,
            a.help == false,
    {
        Args {
            k: 10,
            train_samples: 120000,
            batch_size: 10000,
            train_path: String::from_str("data/ag_news/train.csv"),
            test_path: None,
            test_sample: String::from_str(
                "2 Magnificent Artificial Intelligence (AI) Growth Stocks Set to Join Apple and Microsoft in the $3 Trillion Club by 2030",
            ),
            num_test_samples: 1000,
            help: false,
        }
    }
}

} // verus!
