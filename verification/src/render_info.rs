//! What a finished render reports.

use std::time::Duration;
use vstd::prelude::*;

verus! {

/// The summary of a run: the time spent computing, which leaves out the time
/// spent writing, and the number of bytes produced.
pub struct RenderInfo {
    pub elapsed: Duration,
    pub bytes: usize,
}

impl RenderInfo {
    pub fn new(elapsed: Duration, bytes: usize) -> (info: Self)
        ensures
            info.elapsed == elapsed,
            info.bytes == bytes,
    {
        Self { elapsed, bytes }
    }
}

} // verus!
