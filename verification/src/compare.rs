//! The C string comparisons.

use crate::cstring::{bounded_diff, compare_bytes, full_diff};
use vstd::prelude::*;

verus! {

/// Compares two strings byte by byte up to the first terminator: 0 when they
/// are equal, else the difference of the first two bytes that differ, each
/// taken from 0 to 255, the left one less the right one.
pub fn strcmp(lhs: &[u8], rhs: &[u8]) -> (r: i32)
    ensures
        r == full_diff(false, lhs@, rhs@),
{
    strncmp(lhs, rhs, usize::MAX)
}

/// Compares two strings over their first `num` bytes at most.
pub fn strncmp(lhs: &[u8], rhs: &[u8], num: usize) -> (r: i32)
    ensures
        r == bounded_diff(false, lhs@, rhs@, num),
{
    compare_bytes(lhs, rhs, num, false)
}

/// Compares two strings without regard to the case of ASCII letters.
pub fn strcasecmp(lhs: &[u8], rhs: &[u8]) -> (r: i32)
    ensures
        r == full_diff(true, lhs@, rhs@),
{
    strncasecmp(lhs, rhs, usize::MAX)
}

/// Compares two strings over their first `num` bytes at most, without regard
/// to the case of ASCII letters.
pub fn strncasecmp(lhs: &[u8], rhs: &[u8], num: usize) -> (r: i32)
    ensures
        r == bounded_diff(true, lhs@, rhs@, num),
{
    compare_bytes(lhs, rhs, num, true)
}

} // verus!
