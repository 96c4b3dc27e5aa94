//! For tracking the progress of an encoding and stopping it early.

use vstd::prelude::*;

verus! {

/// A trait that is used to report progress to some consumer.
pub trait ProgressReporter {
    /// Called after each frame has been written.
    ///
    /// This method may return `false` to abort processing.
    fn increase(&mut self) -> bool;

    /// File size so far.
    fn written_bytes(&mut self, _current_file_size_in_bytes: u64) {
    }

    /// Called when the encoding is over.
    fn done(&mut self, _msg: &str) {
    }
}

/// No-op progress reporter.
pub struct NoProgress {}

impl ProgressReporter for NoProgress {
    fn increase(&mut self) -> (cont: bool)
        ensures
            cont,
    {
        true
    }

    fn done(&mut self, _msg: &str) {
    }
}

} // verus!
