//! ASCII character classes over C `int` codes.

use vstd::prelude::*;

verus! {

/// The code of an ASCII decimal digit.
pub open spec fn is_digit(c: int) -> bool {
    0x30 <= c <= 0x39
}

/// The code of an ASCII white-space character: space, tab, line feed,
/// vertical tab, form feed or carriage return.
pub open spec fn is_space(c: int) -> bool {
    c == 0x20 || 0x09 <= c <= 0x0d
}

/// The code of an ASCII lower-case letter.
pub open spec fn is_lower(c: int) -> bool {
    0x61 <= c <= 0x7a
}

/// The code of an ASCII upper-case letter.
pub open spec fn is_upper(c: int) -> bool {
    0x41 <= c <= 0x5a
}

/// The upper-case counterpart of a lower-case letter; any other code unchanged.
pub open spec fn upper_of(c: int) -> int {
    if is_lower(c) {
        c - 0x20
    } else {
        c
    }
}

/// The lower-case counterpart of an upper-case letter; any other code unchanged.
pub open spec fn lower_of(c: int) -> int {
    if is_upper(c) {
        c + 0x20
    } else {
        c
    }
}

/// A C truth value: 1 for true, 0 for false.
pub open spec fn truth(b: bool) -> int {
    if b {
        1
    } else {
        0
    }
}

/// The absolute value of an integer.
pub open spec fn magnitude(n: int) -> int {
    if n < 0 {
        -n
    } else {
        n
    }
}

/// The low eight bits of a C `int`, as the byte a `char` conversion keeps.
pub open spec fn low_byte(c: int) -> int {
    c % 256
}

pub fn isdigit(c: i32) -> (r: i32)
    ensures
        r == truth(is_digit(c as int)),
{
    if 0x30 <= c && c <= 0x39 {
        1
    } else {
        0
    }
}

pub fn isspace(c: i32) -> (r: i32)
    ensures
        r == truth(is_space(c as int)),
{
    if c == 0x20 || c == 0x0c || c == 0x0a || c == 0x0d || c == 0x09 || c == 0x0b {
        1
    } else {
        0
    }
}

pub fn islower(c: i32) -> (r: i32)
    ensures
        r == truth(is_lower(c as int)),
{
    if 0x61 <= c && c <= 0x7a {
        1
    } else {
        0
    }
}

pub fn isupper(c: i32) -> (r: i32)
    ensures
        r == truth(is_upper(c as int)),
{
    if 0x41 <= c && c <= 0x5a {
        1
    } else {
        0
    }
}

/// Clears bit `0x20` of a lower-case letter and leaves every other code alone.
pub fn toupper(c: i32) -> (r: i32)
    ensures
        r == upper_of(c as int),
{
    if islower(c) != 0 {
        assert(0x61 <= c <= 0x7a ==> (c & !0x20i32) == c - 0x20) by (bit_vector);
        c & !0x20
    } else {
        c
    }
}

/// The absolute value of `n`. The most negative `i32` has none.
pub fn abs(n: i32) -> (r: i32)
    requires
        n > i32::MIN,
    ensures
        r == magnitude(n as int),
{
    if n < 0 {
        -n
    } else {
        n
    }
}

/// The byte that a conversion of the C `int` `c` to `char` keeps.
pub fn to_byte(c: i32) -> (b: u8)
    ensures
        b == low_byte(c as int),
{
    assert((c & 0xff) as u8 == (c as int) % 256) by (bit_vector);
    (c & 0xff) as u8
}

} // verus!
