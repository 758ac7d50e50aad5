//! The settings of the search: where the backend is and which indexes it
//! holds.

use vstd::prelude::*;
use crate::text::{strip_trailing, trim, trim_end, trimmed};

verus! {

/// The settings of the search.
pub struct Config {
    /// The address of the search backend, without a `/` at its end.
    pub es_url: String,
    /// The name of the index of developers.
    pub dev_idx: String,
    /// The name of the index of repositories.
    pub repo_idx: String,
}

impl Config {
    /// The settings, from the values as they were handed in: white space
    /// around them does not count, nor a `/` at the end of the address.
    pub fn new(es_url: &str, dev_idx: &str, repo_idx: &str) -> (config: Config)
        ensures
            config.es_url@ == strip_trailing(trimmed(es_url@), '/'),
            config.dev_idx@ == trimmed(dev_idx@),
            config.repo_idx@ == trimmed(repo_idx@),
    {
        Config {
            es_url: trim_end(trim(es_url).as_str(), '/'),
            dev_idx: trim(dev_idx),
            repo_idx: trim(repo_idx),
        }
    }
}

} // verus!
