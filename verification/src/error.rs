//! Errors that can arise while setting a shared memory queue up.
//!
//! Every error is a construction-time failure of the segment mapper and
//! carries the operating system's error code for diagnosis. Once both
//! endpoints are constructed, the channel protocol itself is infallible.

use vstd::prelude::*;

verus! {

/// Possible error codes when working with shared memory queue
#[derive(Clone, Copy, Debug, PartialEq, Eq, Structural)]
pub enum ShmemError {
    /// Failed to open provided shared memory file
    Open(i32),
    /// Failed to resize the shared memory file to specified size
    Resize(i32),
    /// Failed to query the size of shared memory file
    SizeCheck(i32),
    /// Failed to memory map the shared memory file
    Mmap(i32),
}

impl ShmemError {
    /// The operating system error code carried by this error.
    pub fn code(&self) -> (r: i32)
        ensures
            r == self.spec_code(),
    {
        match self {
            ShmemError::Open(code) => *code,
            ShmemError::Resize(code) => *code,
            ShmemError::SizeCheck(code) => *code,
            ShmemError::Mmap(code) => *code,
        }
    }

    /// The error code, as seen by contracts.
    pub open spec fn spec_code(self) -> i32 {
        match self {
            ShmemError::Open(code) => code,
            ShmemError::Resize(code) => code,
            ShmemError::SizeCheck(code) => code,
            ShmemError::Mmap(code) => code,
        }
    }
}

} // verus!
