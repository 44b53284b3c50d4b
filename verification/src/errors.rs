//! The typed failures every operation of this library reports.

use vstd::prelude::*;

verus! {

/// Everything that can go wrong on the driver-facing client side.
///
/// No failure is retried internally; each is reported to the immediate
/// caller, which owns the retry policy.
#[derive(Debug, PartialEq, Eq)]
pub enum Error {
    /// The underlying OS call failed with this error number.
    Errno(i32),
    /// A read transferred fewer bytes than requested: expected, then actual.
    ReadFailed(usize, usize),
    /// A write transferred fewer bytes than requested: expected, then actual.
    WriteFailed(usize, usize),
    /// The region list exceeded the generously sized buffer.
    MapsTooLong,
    /// The region-list response was too short to hold what it announced.
    MapsParseError,
    /// A physical-residency query address was not page-aligned.
    NotAligned,
    /// A physical-residency query had `begin >= end`: begin, then end.
    BeginLargerThanEnd(u64, u64),
    /// A register index at or above the number of addressable registers.
    InvalidRegister(u64),
    /// A trigger-type token that names no breakpoint type.
    InvalidBreakpointType(String),
}

} // verus!
