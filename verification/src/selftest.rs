//! Start-up checks of the string routines on fixed inputs. Each check is
//! proved where it is written, so running them cannot fail.

use crate::compare::{strncasecmp, strncmp};
use crate::cstring::{bounded_diff, bounded_len, diff_from, scan_from, str_len, strlen, strnlen};
use crate::number::{atoi, atoi_value, digits_from, skip_spaces, wrap_i32};
use vstd::prelude::*;
use vstd::string::*;

verus! {

/// The sign of an integer: 1, 0 or -1.
pub open spec fn sign_of(x: int) -> int {
    if x > 0 {
        1
    } else if x < 0 {
        -1
    } else {
        0
    }
}

/// The bytes of a text that holds ASCII characters only: one byte for each
/// character, with its code.
pub open spec fn ascii_bytes(text: Seq<char>) -> Seq<u8> {
    Seq::new(text.len(), |i: int| text[i] as u8)
}

proof fn lemma_ascii_bytes(s: &str)
    requires
        is_ascii(s),
    ensures
        s.spec_bytes() == ascii_bytes(s@),
{
    broadcast use is_ascii_spec_bytes;

    assert(s.spec_bytes() =~= ascii_bytes(s@));
}

fn signum(x: i32) -> (s: i32)
    ensures
        s == sign_of(x as int),
{
    if x > 0 {
        1
    } else if x < 0 {
        -1
    } else {
        0
    }
}

/// Checks the sign of a bounded comparison of two texts.
pub fn _strncmp_assert(lhs: &str, rhs: &str, n: usize, expected: i32)
    requires
        sign_of(bounded_diff(false, lhs.spec_bytes(), rhs.spec_bytes(), n)) == expected,
{
    let val = signum(strncmp(lhs.as_bytes(), rhs.as_bytes(), n));
    assert(val == expected);
}

pub fn _strncmp_test() {
    proof {
        reveal_strlit("a\0");
        reveal_strlit("a1\0");
        reveal_strlit("\0");
        reveal_strlit("test");
        reveal_strlit("test1");
        reveal_strlit("test2");
        lemma_ascii_bytes("a\0");
        lemma_ascii_bytes("a1\0");
        lemma_ascii_bytes("\0");
        lemma_ascii_bytes("test");
        lemma_ascii_bytes("test1");
        lemma_ascii_bytes("test2");
        reveal_with_fuel(diff_from, 8);
    }
    _strncmp_assert("a\0", "a\0", usize::MAX, 0);
    _strncmp_assert("a\0", "a1\0", usize::MAX, -1);
    _strncmp_assert("a1\0", "a\0", usize::MAX, 1);
    _strncmp_assert("\0", "\0", usize::MAX, 0);
    _strncmp_assert("test", "test", 4, 0);
    _strncmp_assert("test1", "test2", 5, -1);
}

/// Checks the sign of a bounded comparison of two texts that folds case.
pub fn _strncasecmp_assert(lhs: &str, rhs: &str, n: usize, expected: i32)
    requires
        sign_of(bounded_diff(true, lhs.spec_bytes(), rhs.spec_bytes(), n)) == expected,
{
    let val = signum(strncasecmp(lhs.as_bytes(), rhs.as_bytes(), n));
    assert(val == expected);
}

pub fn _strncasecmp_test() {
    proof {
        reveal_strlit("a\0");
        reveal_strlit("A\0");
        reveal_strlit("a1\0");
        reveal_strlit("A1\0");
        reveal_strlit("\0");
        reveal_strlit("test");
        reveal_strlit("teSt");
        reveal_strlit("tEsT");
        reveal_strlit("test1");
        reveal_strlit("test2");
        reveal_strlit("Test2");
        reveal_strlit("TEST");
        reveal_strlit("yeet");
        lemma_ascii_bytes("a\0");
        lemma_ascii_bytes("A\0");
        lemma_ascii_bytes("a1\0");
        lemma_ascii_bytes("A1\0");
        lemma_ascii_bytes("\0");
        lemma_ascii_bytes("test");
        lemma_ascii_bytes("teSt");
        lemma_ascii_bytes("tEsT");
        lemma_ascii_bytes("test1");
        lemma_ascii_bytes("test2");
        lemma_ascii_bytes("Test2");
        lemma_ascii_bytes("TEST");
        lemma_ascii_bytes("yeet");
        reveal_with_fuel(diff_from, 8);
    }
    _strncasecmp_assert("a\0", "a\0", usize::MAX, 0);
    _strncasecmp_assert("a\0", "A\0", usize::MAX, 0);
    _strncasecmp_assert("a\0", "a1\0", usize::MAX, -1);
    _strncasecmp_assert("a\0", "A1\0", usize::MAX, -1);
    _strncasecmp_assert("a1\0", "a\0", usize::MAX, 1);
    _strncasecmp_assert("\0", "\0", usize::MAX, 0);
    _strncasecmp_assert("test", "test", 4, 0);
    _strncasecmp_assert("teSt", "tEsT", 4, 0);
    _strncasecmp_assert("test1", "test2", 5, -1);
    _strncasecmp_assert("test1", "Test2", 5, -1);
    _strncasecmp_assert("test", "TEST", 4, 0);
    _strncasecmp_assert("test", "yeet", 0, 0);
}

fn _atoi_assert(lhs: &str, expected: i32)
    requires
        wrap_i32(atoi_value(lhs.spec_bytes())) == expected,
{
    let val = atoi(lhs.as_bytes());
    assert(val == expected);
}

pub fn _atoi_test() {
    proof {
        reveal_strlit("\0");
        reveal_strlit("  \0");
        reveal_strlit("  1\0");
        reveal_strlit("  1  \0");
        reveal_strlit("  654  \0");
        reveal_strlit("  654  ");
        reveal_strlit(" 3d\0");
        reveal_strlit("-3d\0");
        reveal_strlit("a-3d\0");
        reveal_strlit("+3d\0");
        lemma_ascii_bytes("\0");
        lemma_ascii_bytes("  \0");
        lemma_ascii_bytes("  1\0");
        lemma_ascii_bytes("  1  \0");
        lemma_ascii_bytes("  654  \0");
        lemma_ascii_bytes("  654  ");
        lemma_ascii_bytes(" 3d\0");
        lemma_ascii_bytes("-3d\0");
        lemma_ascii_bytes("a-3d\0");
        lemma_ascii_bytes("+3d\0");
        reveal_with_fuel(skip_spaces, 4);
        reveal_with_fuel(digits_from, 5);
    }
    _atoi_assert("\0", 0);
    _atoi_assert("  \0", 0);
    _atoi_assert("  1\0", 1);
    _atoi_assert("  1  \0", 1);
    _atoi_assert("  654  \0", 654);
    _atoi_assert("  654  ", 654);
    _atoi_assert(" 3d\0", 3);
    _atoi_assert("-3d\0", -3);
    _atoi_assert("a-3d\0", 0);
    _atoi_assert("+3d\0", 3);
}

fn _strlen_assert(lhs: &str, expected: usize)
    requires
        str_len(lhs.spec_bytes()) == expected,
{
    let val = strlen(lhs.as_bytes());
    assert(val == expected);
}

fn _strnlen_assert(lhs: &str, n: usize, expected: usize)
    requires
        bounded_len(lhs.spec_bytes(), n as int) == expected,
{
    let val = strnlen(lhs.as_bytes(), n);
    assert(val == expected);
}

pub fn _strlen_test() {
    proof {
        reveal_strlit("\0");
        reveal_strlit("  \0");
        reveal_strlit("  1\0");
        reveal_strlit("  1  \0");
        reveal_strlit("  654  \0");
        reveal_strlit(" 3d\0");
        reveal_strlit("  654  ");
        reveal_strlit("  \054  ");
        lemma_ascii_bytes("\0");
        lemma_ascii_bytes("  \0");
        lemma_ascii_bytes("  1\0");
        lemma_ascii_bytes("  1  \0");
        lemma_ascii_bytes("  654  \0");
        lemma_ascii_bytes(" 3d\0");
        lemma_ascii_bytes("  654  ");
        lemma_ascii_bytes("  \054  ");
        reveal_with_fuel(scan_from, 9);
    }
    _strlen_assert("\0", 0);
    _strlen_assert("  \0", 2);
    _strlen_assert("  1\0", 3);
    _strlen_assert("  1  \0", 5);
    _strlen_assert("  654  \0", 7);
    _strlen_assert(" 3d\0", 3);
    _strlen_assert(" 3d\0", 3);

    _strnlen_assert("  654  ", 7, 7);
    _strnlen_assert("  654  ", 4, 4);
    _strnlen_assert("  654  ", 0, 0);
    _strnlen_assert("  \054  ", 7, 2);
}

} // verus!
