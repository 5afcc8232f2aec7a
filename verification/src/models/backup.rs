//! A snapshot of an audio file taken before it was overwritten.

use vstd::prelude::*;

verus! {

/// One backup copy of an audio file.
#[derive(Clone, Debug, PartialEq, Eq)]
pub struct BackupVersion {
    pub timestamp: String,
    pub path: String,
    pub size_bytes: u64,
}

} // verus!
