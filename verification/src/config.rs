//! What an operator can set.

use vstd::prelude::*;

verus! {

/// The settings of the watcher.
#[derive(Debug, PartialEq)]
pub struct Config {
    /// Where the store is.
    pub db: String,
    /// The log files to read and follow.
    pub paths: Vec<String>,
    /// Whether the files are read from the resume point before they are
    /// followed. Switched off, following starts at the end of each file.
    pub backfill: bool,
    /// The number of records that go to the store in one batch.
    pub backfill_batch_size: usize,
    /// The number of files that are read side by side.
    pub backfill_concurrency: usize,
}

impl Default for Config {
    fn default() -> (r: Config)
        ensures
            r.db@.len() == 0,
            r.paths@.len() == 0,
            r.backfill,
            r.backfill_batch_size == 5000,
            r.backfill_concurrency == 2,
    {
        Config {
            db: String::new(),
            paths: Vec::new(),
            backfill: true,
            backfill_batch_size: 5000,
            backfill_concurrency: 2,
        }
    }
}

} // verus!
