//! Query shapes of the serving layer.
//!
//! The HTTP routes themselves are part of the unverified surroundings;
//! here live the query records they decode and the status-filter parsing.

use vstd::prelude::*;

use crate::text::{split_by, str_split};

verus! {

/// Query options of the endpoints that take a window size.
#[derive(Debug, Clone)]
pub struct QueryOptions {
    pub count: Option<usize>,
}

/// Query options of the build-summary endpoints.
#[derive(Debug, Clone)]
pub struct BuildsQueryOptions {
    pub status: Option<String>,
    pub compare_to: Option<usize>,
}

impl BuildsQueryOptions {
    /// The requested status filters: the comma-separated pieces of the
    /// status parameter, or `None` when no filter was given.
    pub fn status_filters(&self) -> (r: Option<Vec<String>>)
        ensures
            match (r, self.status) {
                (Some(fs), Some(s)) => fs@.map_values(|p: String| p@) == split_by(s@, ','),
                (None, None) => true,
                _ => false,
            },
    {
        match &self.status {
            Some(s) => Some(str_split(s.as_str(), ',')),
            None => None,
        }
    }
}

} // verus!
