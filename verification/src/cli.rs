//! What the program is asked to do.

use vstd::prelude::*;

verus! {

/// The command line.
pub struct Cli {
    pub command: Commands,
}

/// The tasks of the program.
#[allow(inconsistent_fields)]
pub enum Commands {
    /// Print the statistics of an evaluation.
    Eval(EvalArgs),
    /// Compare the source and the target of a pull request.
    PR { pr: usize },
    /// Compare two evaluations.
    CompareEvals {
        /// The old evaluation.
        old: u64,
        /// The new evaluation.
        new: u64,
    },
    /// Compare the latest evaluations of two jobsets.
    CompareJobsets {
        /// The old jobset, such as `lopsided98-master`.
        old: String,
        /// The new jobset, such as `lopsided98-develop`.
        new: String,
        /// Whether evaluation data that was fetched before may be used.
        use_cache: bool,
    },
}

/// Which evaluation to analyze, and what to print.
pub struct EvalArgs {
    /// The evaluation.
    pub eval_id: u64,
    /// Whether to print statistics about evaluation failures.
    pub eval_failures: bool,
    /// Whether to list derivations that were built successfully.
    pub list_successful: bool,
}

} // verus!
