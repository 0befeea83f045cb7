//! The arguments of the command line.

use vstd::prelude::*;

verus! {

/// What the command line gives.
#[derive(Debug)]
pub struct ParkhayCli {
    /// Path to the parquet file
    pub path: String,
}

} // verus!
