//! Fixed-layout records that cross the foreign-function boundary: the
//! operation result envelope, the metadata records, and the transferable
//! buffer that describes a producer-owned allocation.

use vstd::prelude::*;

verus! {

/// Errno-style code for a missing path.
pub const ENOENT: i32 = 2;

/// Errno-style code for a generic underlying failure.
pub const EIO: i32 = 5;

/// Errno-style code for a rejected input.
pub const EINVAL: i32 = 22;

/// Result envelope for every exported operation: `success` with
/// `error_code == 0`, or failure with a positive errno-style code.
#[derive(PartialEq, Eq, Structural, Clone, Copy, Debug)]
pub struct FFIResult {
    pub success: bool,
    pub error_code: i32,
}

/// A result envelope is well formed when success carries code 0 and
/// failure carries a positive code.
pub open spec fn result_wf(r: FFIResult) -> bool {
    if r.success {
        r.error_code == 0
    } else {
        r.error_code > 0
    }
}

impl FFIResult {
    /// The success envelope.
    pub fn ok() -> (r: FFIResult)
        ensures
            r == (FFIResult { success: true, error_code: 0 }),
            result_wf(r),
    {
        FFIResult { success: true, error_code: 0 }
    }

    /// A failure envelope carrying the given errno-style code.
    pub fn err(errno: i32) -> (r: FFIResult)
        requires
            errno > 0,
        ensures
            r == (FFIResult { success: false, error_code: errno }),
            result_wf(r),
    {
        FFIResult { success: false, error_code: errno }
    }

    /// Failure envelope for a missing path.
    pub fn not_found() -> (r: FFIResult)
        ensures
            r == (FFIResult { success: false, error_code: ENOENT }),
            result_wf(r),
    {
        FFIResult::err(ENOENT)
    }

    /// Failure envelope for a generic underlying failure.
    pub fn io_error() -> (r: FFIResult)
        ensures
            r == (FFIResult { success: false, error_code: EIO }),
            result_wf(r),
    {
        FFIResult::err(EIO)
    }

    /// Failure envelope for a rejected input.
    pub fn invalid_arg() -> (r: FFIResult)
        ensures
            r == (FFIResult { success: false, error_code: EINVAL }),
            result_wf(r),
    {
        FFIResult::err(EINVAL)
    }
}

/// File metadata record: a pure transfer of integer fields.
#[derive(PartialEq, Eq, Structural, Clone, Copy, Debug)]
pub struct FFIStats {
    pub ino: i64,
    pub mode: u32,
    pub nlink: u32,
    pub uid: u32,
    pub gid: u32,
    pub size: i64,
    pub atime: i64,
    pub mtime: i64,
    pub ctime: i64,
}

/// Filesystem-level statistics.
#[derive(PartialEq, Eq, Structural, Clone, Copy, Debug)]
pub struct FFIFilesystemStats {
    pub inodes: u64,
    pub bytes_used: u64,
}

/// A producer-owned allocation handed across the boundary. The absent
/// allocation is always the zero-valued sentinel: no data, zero length,
/// zero capacity. A present allocation records its exact length, and its
/// capacity equals that length.
pub struct FFIBuffer {
    pub data: Option<Vec<u8>>,
    pub len: usize,
    pub capacity: usize,
}

impl FFIBuffer {
    /// The recorded fields describe the allocation exactly; an absent
    /// allocation is the zero sentinel.
    pub open spec fn wf(self) -> bool {
        match self.data {
            Some(v) => self.len == v.len() && self.capacity == self.len,
            None => self.len == 0 && self.capacity == 0,
        }
    }

    /// True when this is the zero-valued sentinel.
    pub open spec fn is_null(self) -> bool {
        self.data is None
    }

    /// The zero-valued sentinel: no allocation at all.
    pub fn null() -> (r: FFIBuffer)
        ensures
            r.is_null(),
            r.len == 0,
            r.capacity == 0,
            r.wf(),
    {
        FFIBuffer { data: None, len: 0, capacity: 0 }
    }

    /// Wrap an owned byte vector; the recorded length and capacity both
    /// equal the vector's length.
    pub fn from_vec(v: Vec<u8>) -> (r: FFIBuffer)
        ensures
            r.data matches Some(d) && d@ == v@,
            r.len == v@.len(),
            r.capacity == v@.len(),
            r.wf(),
            !r.is_null(),
    {
        let len = v.len();
        FFIBuffer { data: Some(v), len, capacity: len }
    }
}

} // verus!
