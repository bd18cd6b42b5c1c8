//! The key by which aligned items are compared.
use vstd::prelude::*;

use crate::logfile::LogEntry;
use crate::timestamp::Timestamp;

verus! {

/// Items that can be aligned by a comparable key.
pub trait Compare<T> where T: PartialEq + PartialOrd {
    fn key(&self) -> T;
}

impl Compare<Timestamp> for LogEntry {
    /// A log entry is aligned by its instant.
    fn key(&self) -> (k: Timestamp)
        ensures
            k == self@.0,
    {
        self.timestamp
    }
}

} // verus!
