//! Decimal text to integers.

use crate::ctype::{is_digit, is_space, isdigit, isspace};
use crate::cstring::byte_at;
use vstd::prelude::*;

verus! {

/// The offset of the first byte at or after `i` that is not white space.
pub open spec fn skip_spaces(s: Seq<u8>, i: int) -> int
    decreases s.len() - i,
{
    if 0 <= i < s.len() && is_space(s[i] as int) {
        skip_spaces(s, i + 1)
    } else {
        i
    }
}

/// The number that the run of decimal digits at offset `i` spells, read after
/// digits that spelt `acc`.
pub open spec fn digits_from(s: Seq<u8>, i: int, acc: int) -> int
    decreases s.len() - i,
{
    if 0 <= i < s.len() && is_digit(s[i] as int) {
        digits_from(s, i + 1, acc * 10 + (s[i] - 0x30))
    } else {
        acc
    }
}

/// The integer that the string held in `s` spells: white space is skipped,
/// one sign is taken, then decimal digits up to the first byte that is none.
/// No digits spell 0.
pub open spec fn atoi_value(s: Seq<u8>) -> int {
    let i = skip_spaces(s, 0);
    if byte_at(s, i) == 0x2d {
        -digits_from(s, i + 1, 0)
    } else if byte_at(s, i) == 0x2b {
        digits_from(s, i + 1, 0)
    } else {
        digits_from(s, i, 0)
    }
}

/// The `i32` that equals `x` modulo 2^32.
pub open spec fn wrap_i32(x: int) -> int {
    let m = x % 0x1_0000_0000;
    if m > i32::MAX {
        m - 0x1_0000_0000
    } else {
        m
    }
}

proof fn lemma_wrap_step(x: int, d: int)
    ensures
        wrap_i32(10 * wrap_i32(x) - d) == wrap_i32(10 * x - d),
        wrap_i32(-wrap_i32(x)) == wrap_i32(-x),
{
}

/// Parses the decimal integer at the start of the string held in `s`. A
/// value outside `i32` wraps around modulo 2^32.
pub fn atoi(s: &[u8]) -> (r: i32)
    ensures
        r == wrap_i32(atoi_value(s@)),
        i32::MIN <= atoi_value(s@) <= i32::MAX ==> r == atoi_value(s@),
{
    let mut i: usize = 0;
    while i < s.len() && isspace(s[i] as i32) != 0
        invariant
            0 <= i <= s.len(),
            skip_spaces(s@, 0) == skip_spaces(s@, i as int),
        decreases s.len() - i,
    {
        i += 1;
    }
    let mut neg = false;
    if i < s.len() {
        if s[i] == 0x2d {
            neg = true;
            i += 1;
        } else if s[i] == 0x2b {
            i += 1;
        }
    }
    let ghost start = i as int;
    let ghost mut acc: int = 0;
    let mut res: i32 = 0;
    while i < s.len() && isdigit(s[i] as i32) != 0
        invariant
            0 <= start <= i <= s.len(),
            digits_from(s@, start, 0) == digits_from(s@, i as int, acc),
            res == wrap_i32(-acc),
        decreases s.len() - i,
    {
        let d = (s[i] - 0x30) as i32;
        proof {
            lemma_wrap_step(-acc, d as int);
            acc = acc * 10 + d;
        }
        res = res.wrapping_mul(10).wrapping_sub(d);
        i += 1;
    }
    proof {
        lemma_wrap_step(-acc, 0);
    }
    if neg {
        res
    } else {
        0i32.wrapping_sub(res)
    }
}

} // verus!
