use vstd::prelude::*;

verus! {

/// A commit of a repository: its id and its commit time in seconds since
/// the Unix epoch.
#[derive(Debug)]
pub struct Commit {
    pub id: String,
    pub time: i64,
}

} // verus!
