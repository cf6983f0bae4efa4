//! Process bookkeeping.
use vstd::prelude::*;

verus! {

/// What is kept about a created process.
pub struct ProcessInfo {
    pub pid: usize,
    pub entry_point: usize,
    pub args: Vec<&'static str>,
}

} // verus!
