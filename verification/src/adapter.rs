//! Call adapter: maps each capability outcome onto the boundary's result
//! envelope and output slot. The capability reports success with a value,
//! success with absence, or a failure (possibly classified to a canonical
//! errno); the adapter turns that into an envelope and fills or zeroes the
//! output, so that a missing path is always `ENOENT` with no allocation and
//! a produced value crosses the boundary unchanged.

use vstd::prelude::*;

use crate::abi::{FFIBuffer, FFIResult, FFIStats};
use crate::listing::encode_spec;

verus! {

/// Outcome of a capability call that yields bytes (positional or whole-file
/// read).
pub enum DataOutcome {
    Found(Vec<u8>),
    Absent,
    Failed,
}

/// Outcome of a capability call that yields text (a symlink target).
pub enum TextOutcome {
    Found(Vec<u8>),
    Absent,
    Failed,
}

/// Outcome of a capability call that yields directory entry names.
pub enum ListOutcome {
    Found(Vec<Vec<u8>>),
    Absent,
    Failed,
}

/// Outcome of a capability call that yields a metadata record.
pub enum StatsOutcome {
    Found(FFIStats),
    Absent,
    Failed,
}

/// Outcome of a capability call that yields nothing (write, truncate,
/// durability sync).
pub enum UnitOutcome {
    Done,
    Failed,
}

/// Outcome of a capability call whose failure may carry a canonical errno
/// from the capability's own mapping table (directory creation, removal,
/// rename, symlink creation).
pub enum ClassifiedOutcome {
    Done,
    Domain(i32),
    Failed,
}

/// Whether the bytes hold an interior NUL, which no null-terminated string
/// can carry.
pub open spec fn has_nul(s: Seq<u8>) -> bool {
    exists|i: int| 0 <= i < s.len() && s[i] == 0
}

/// Whether the bytes hold an interior NUL.
pub fn contains_nul(s: &Vec<u8>) -> (r: bool)
    ensures
        r == has_nul(s@),
{
    let mut i: usize = 0;
    while i < s.len()
        invariant
            i <= s@.len(),
            forall|j: int| 0 <= j < i ==> s@[j] != 0,
        decreases s.len() - i,
    {
        if s[i] == 0 {
            return true;
        }
        i = i + 1;
    }
    false
}

/// Copy the metadata fields across the boundary, unchanged.
pub fn make_stats(
    ino: i64,
    mode: u32,
    nlink: u32,
    uid: u32,
    gid: u32,
    size: i64,
    atime: i64,
    mtime: i64,
    ctime: i64,
) -> (r: FFIStats)
    ensures
        r == (FFIStats { ino, mode, nlink, uid, gid, size, atime, mtime, ctime }),
{
    FFIStats { ino, mode, nlink, uid, gid, size, atime, mtime, ctime }
}

/// Marshal a byte-producing outcome: the bytes cross unchanged on success;
/// absence is `ENOENT`; any failure or absence hands back the zero sentinel,
/// never an allocation.
pub fn marshal_data(o: DataOutcome) -> (r: (FFIResult, FFIBuffer))
    ensures
        r.1.wf(),
        !r.0.success ==> r.1.is_null(),
        match o {
            DataOutcome::Found(d) => r.0 == FFIResult { success: true, error_code: 0 }
                && (r.1.data matches Some(b) && b@ == d@) && r.1.len == d@.len(),
            DataOutcome::Absent => r.0 == (FFIResult {
                success: false,
                error_code: crate::abi::ENOENT,
            }) && r.1.is_null(),
            DataOutcome::Failed => r.0 == (FFIResult {
                success: false,
                error_code: crate::abi::EIO,
            }) && r.1.is_null(),
        },
{
    match o {
        DataOutcome::Found(d) => (FFIResult::ok(), FFIBuffer::from_vec(d)),
        DataOutcome::Absent => (FFIResult::not_found(), FFIBuffer::null()),
        DataOutcome::Failed => (FFIResult::io_error(), FFIBuffer::null()),
    }
}

/// Marshal a text-producing outcome: the text crosses unchanged unless it
/// cannot form a null-terminated string; absence is `ENOENT` with no
/// allocation.
pub fn marshal_text(o: TextOutcome) -> (r: (FFIResult, Option<Vec<u8>>))
    ensures
        !r.0.success ==> r.1 is None,
        match o {
            TextOutcome::Found(t) => if has_nul(t@) {
                r.0 == (FFIResult { success: false, error_code: crate::abi::EIO }) && r.1 is None
            } else {
                r.0 == (FFIResult { success: true, error_code: 0 }) && (r.1 matches Some(v) && v@
                    == t@)
            },
            TextOutcome::Absent => r.0 == (FFIResult {
                success: false,
                error_code: crate::abi::ENOENT,
            }) && r.1 is None,
            TextOutcome::Failed => r.0 == (FFIResult {
                success: false,
                error_code: crate::abi::EIO,
            }) && r.1 is None,
        },
{
    match o {
        TextOutcome::Found(t) => {
            if contains_nul(&t) {
                (FFIResult::io_error(), None)
            } else {
                (FFIResult::ok(), Some(t))
            }
        },
        TextOutcome::Absent => (FFIResult::not_found(), None),
        TextOutcome::Failed => (FFIResult::io_error(), None),
    }
}

/// Marshal a listing outcome: the ordered entry names are serialized into
/// one self-describing payload; absence is `ENOENT` with no allocation.
pub fn marshal_listing(o: ListOutcome) -> (r: (FFIResult, Option<Vec<u8>>))
    ensures
        !r.0.success ==> r.1 is None,
        match o {
            ListOutcome::Found(entries) => {
                let payload = encode_spec(entries.deep_view());
                if has_nul(payload) {
                    r.0 == (FFIResult { success: false, error_code: crate::abi::EIO }) && r.1
                        is None
                } else {
                    r.0 == (FFIResult { success: true, error_code: 0 }) && (r.1 matches Some(v)
                        && v@ == payload)
                }
            },
            ListOutcome::Absent => r.0 == (FFIResult {
                success: false,
                error_code: crate::abi::ENOENT,
            }) && r.1 is None,
            ListOutcome::Failed => r.0 == (FFIResult {
                success: false,
                error_code: crate::abi::EIO,
            }) && r.1 is None,
        },
{
    match o {
        ListOutcome::Found(entries) => {
            let payload = crate::listing::encode_entries(&entries);
            if contains_nul(&payload) {
                (FFIResult::io_error(), None)
            } else {
                (FFIResult::ok(), Some(payload))
            }
        },
        ListOutcome::Absent => (FFIResult::not_found(), None),
        ListOutcome::Failed => (FFIResult::io_error(), None),
    }
}

/// Marshal a metadata outcome: the record crosses unchanged; absence is
/// `ENOENT` with no record written.
pub fn marshal_stats(o: StatsOutcome) -> (r: (FFIResult, Option<FFIStats>))
    ensures
        !r.0.success ==> r.1 is None,
        match o {
            StatsOutcome::Found(s) => r.0 == (FFIResult { success: true, error_code: 0 }) && r.1
                == Some(s),
            StatsOutcome::Absent => r.0 == (FFIResult {
                success: false,
                error_code: crate::abi::ENOENT,
            }) && r.1 is None,
            StatsOutcome::Failed => r.0 == (FFIResult {
                success: false,
                error_code: crate::abi::EIO,
            }) && r.1 is None,
        },
{
    match o {
        StatsOutcome::Found(s) => (FFIResult::ok(), Some(s)),
        StatsOutcome::Absent => (FFIResult::not_found(), None),
        StatsOutcome::Failed => (FFIResult::io_error(), None),
    }
}

/// Marshal a value-free outcome.
pub fn marshal_unit(o: UnitOutcome) -> (r: FFIResult)
    ensures
        match o {
            UnitOutcome::Done => r == (FFIResult { success: true, error_code: 0 }),
            UnitOutcome::Failed => r == (FFIResult { success: false, error_code: crate::abi::EIO }),
        },
{
    match o {
        UnitOutcome::Done => FFIResult::ok(),
        UnitOutcome::Failed => FFIResult::io_error(),
    }
}

/// Marshal an outcome whose failure may carry the capability's canonical
/// errno: a classified failure forwards that code, an unclassified one is
/// the generic I/O error.
pub fn marshal_classified(o: ClassifiedOutcome) -> (r: FFIResult)
    requires
        o matches ClassifiedOutcome::Domain(e) ==> e > 0,
    ensures
        match o {
            ClassifiedOutcome::Done => r == (FFIResult { success: true, error_code: 0 }),
            ClassifiedOutcome::Domain(e) => r == (FFIResult { success: false, error_code: e }),
            ClassifiedOutcome::Failed => r == (FFIResult {
                success: false,
                error_code: crate::abi::EIO,
            }),
        },
{
    match o {
        ClassifiedOutcome::Done => FFIResult::ok(),
        ClassifiedOutcome::Domain(e) => FFIResult::err(e),
        ClassifiedOutcome::Failed => FFIResult::io_error(),
    }
}

} // verus!
