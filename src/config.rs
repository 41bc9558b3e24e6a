//! The operator's settings for a run.
use vstd::prelude::*;

verus! {

pub struct Config {
    /// Users that a first directory below the root may name as owner.
    pub accepted_users: Vec<String>,
    /// How many files may be processed at once.
    pub number_of_threads: i32,
}

impl Config {
    /// The concurrency limit of the run; `None` when the setting allows no
    /// file to be processed at all.
    pub fn concurrency_limit(&self) -> (r: Option<usize>)
        ensures
            self.number_of_threads > 0 ==> r == Some(self.number_of_threads as usize),
            self.number_of_threads <= 0 ==> r is None,
    {
        if self.number_of_threads > 0 {
            Some(self.number_of_threads as usize)
        } else {
            None
        }
    }
}

} // verus!
