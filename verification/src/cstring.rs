//! Byte strings that end at the first zero byte.
//!
//! A string is handed over in a slice. It ends at the first zero byte of the
//! slice, or at the end of the slice when it holds none: reading at or past
//! the end of the slice gives the terminator.

use crate::ctype::{low_byte, lower_of, to_byte};
use crate::heap::malloc;
use vstd::prelude::*;
use vstd::slice::slice_subrange;
use vstd::string::*;
use vstd::utf8::valid_utf8;

verus! {

/// Byte `i` of the string held in `s`.
pub open spec fn byte_at(s: Seq<u8>, i: int) -> u8 {
    if 0 <= i < s.len() {
        s[i]
    } else {
        0
    }
}

/// The offset of the first zero byte at or after `i`, or the length of `s`
/// when there is none.
pub open spec fn scan_from(s: Seq<u8>, i: int) -> int
    decreases s.len() - i,
{
    if 0 <= i < s.len() && s[i] != 0 {
        scan_from(s, i + 1)
    } else {
        i
    }
}

/// The length of the string held in `s`: the offset of its terminator.
pub open spec fn str_len(s: Seq<u8>) -> int {
    scan_from(s, 0)
}

/// The bytes of the string held in `s`, without the terminator.
pub open spec fn content(s: Seq<u8>) -> Seq<u8> {
    s.take(str_len(s))
}

/// The length of the string held in `s`, cut off at `n`.
pub open spec fn bounded_len(s: Seq<u8>, n: int) -> int {
    if n < str_len(s) {
        n
    } else {
        str_len(s)
    }
}

/// `n` is the offset of the terminator of the string held in `s`: no byte
/// before it is zero, and it is a zero byte or the end of `s`.
pub open spec fn is_terminator(s: Seq<u8>, n: int) -> bool {
    &&& 0 <= n <= s.len()
    &&& forall|j: int| 0 <= j < n ==> s[j] != 0
    &&& n < s.len() ==> s[n] == 0
}

proof fn lemma_scan_from(s: Seq<u8>, i: int)
    requires
        0 <= i <= s.len(),
    ensures
        i <= scan_from(s, i) <= s.len(),
        forall|j: int| i <= j < scan_from(s, i) ==> s[j] != 0,
        scan_from(s, i) < s.len() ==> s[scan_from(s, i)] == 0,
    decreases s.len() - i,
{
    if i < s.len() && s[i] != 0 {
        lemma_scan_from(s, i + 1);
    }
}

/// The length of a string is the offset of its terminator, and nothing else is.
pub proof fn lemma_str_len(s: Seq<u8>)
    ensures
        is_terminator(s, str_len(s)),
        forall|n: int| is_terminator(s, n) ==> n == str_len(s),
        byte_at(s, str_len(s)) == 0,
{
    lemma_scan_from(s, 0);
    assert forall|n: int| is_terminator(s, n) implies n == str_len(s) by {
        let m = str_len(s);
        if n < m {
            assert(s[n] != 0);
        } else if m < n {
            assert(s[m] != 0);
        }
    }
}

/// The number of bytes before the terminator of `s`.
pub fn strlen(s: &[u8]) -> (n: usize)
    ensures
        n == str_len(s@),
        is_terminator(s@, n as int),
{
    let mut i: usize = 0;
    while i < s.len() && s[i] != 0
        invariant
            0 <= i <= s.len(),
            scan_from(s@, 0) == scan_from(s@, i as int),
        decreases s.len() - i,
    {
        i += 1;
    }
    proof {
        lemma_str_len(s@);
    }
    i
}

/// The number of bytes before the terminator of `s`, but `size` at most.
pub fn strnlen(s: &[u8], size: usize) -> (n: usize)
    ensures
        n == bounded_len(s@, size as int),
{
    let mut i: usize = 0;
    while i < size && i < s.len() && s[i] != 0
        invariant
            0 <= i <= s.len(),
            i <= size,
            scan_from(s@, 0) == scan_from(s@, i as int),
        decreases s.len() - i,
    {
        i += 1;
    }
    proof {
        lemma_scan_from(s@, i as int);
    }
    i
}

/// Walks the string held in `s`, terminator included: its bytes in order,
/// then one zero byte.
pub fn c_str_iter(s: &[u8]) -> (bytes: Vec<u8>)
    ensures
        bytes@ == content(s@).push(0),
{
    let n = strlen(s);
    let mut bytes: Vec<u8> = Vec::new();
    let mut i: usize = 0;
    while i < n
        invariant
            0 <= i <= n <= s.len(),
            bytes@ == s@.take(i as int),
        decreases n - i,
    {
        bytes.push(s[i]);
        assert(s@.take(i as int).push(s@[i as int]) =~= s@.take(i + 1));
        i += 1;
    }
    bytes.push(0);
    bytes
}

/// The value by which a comparison orders a byte: the byte itself, from 0 to
/// 255, or, where case is folded, the byte with upper-case letters turned to
/// lower case.
pub open spec fn rank(fold: bool, b: u8) -> int {
    if fold {
        lower_of(b as int)
    } else {
        b as int
    }
}

/// The outcome of comparing two strings byte by byte from offset `i` on,
/// looking at offsets below `n` only: at the first offset where the ranks
/// differ or the left string ends, the left rank less the right one; 0 if
/// there is no such offset below `n`.
pub open spec fn diff_from(fold: bool, a: Seq<u8>, b: Seq<u8>, n: int, i: int) -> int
    decreases n - i,
{
    if i >= n {
        0
    } else {
        let l = rank(fold, byte_at(a, i));
        let r = rank(fold, byte_at(b, i));
        if l != r || l == 0 {
            l - r
        } else {
            diff_from(fold, a, b, n, i + 1)
        }
    }
}

/// The outcome of comparing the strings held in `a` and `b` over their first
/// `n` bytes.
pub open spec fn bounded_diff(fold: bool, a: Seq<u8>, b: Seq<u8>, n: usize) -> int {
    diff_from(fold, a, b, n as int, 0)
}

/// The outcome of comparing the strings held in `a` and `b` in full.
pub open spec fn full_diff(fold: bool, a: Seq<u8>, b: Seq<u8>) -> int {
    diff_from(fold, a, b, usize::MAX as int, 0)
}

fn rank_of(fold: bool, b: u8) -> (k: i32)
    ensures
        k == rank(fold, b),
        0 <= k <= 255,
        k == 0 <==> b == 0,
{
    if fold && 0x41 <= b && b <= 0x5a {
        (b + 0x20) as i32
    } else {
        b as i32
    }
}

/// Compares the strings held in `lhs` and `rhs` over their first `num` bytes,
/// folding case if `fold` is set.
pub fn compare_bytes(lhs: &[u8], rhs: &[u8], num: usize, fold: bool) -> (r: i32)
    ensures
        r == bounded_diff(fold, lhs@, rhs@, num),
{
    let mut i: usize = 0;
    while i < num
        invariant
            0 <= i <= num,
            diff_from(fold, lhs@, rhs@, num as int, 0) == diff_from(
                fold,
                lhs@,
                rhs@,
                num as int,
                i as int,
            ),
        decreases num - i,
    {
        let l = rank_of(fold, if i < lhs.len() { lhs[i] } else { 0 });
        let r = rank_of(fold, if i < rhs.len() { rhs[i] } else { 0 });
        if l != r || l == 0 {
            return l - r;
        }
        i += 1;
    }
    0
}

/// The strings held in `a` and `b` agree over their first `n` bytes: cut off
/// at `n` they have the same length, and byte for byte the same rank.
pub open spec fn same_prefix(fold: bool, a: Seq<u8>, b: Seq<u8>, n: int) -> bool {
    &&& bounded_len(a, n) == bounded_len(b, n)
    &&& forall|j: int|
        0 <= j < bounded_len(a, n) ==> rank(fold, #[trigger] byte_at(a, j)) == rank(
            fold,
            byte_at(b, j),
        )
}

proof fn lemma_ends_at(s: Seq<u8>, i: int)
    requires
        0 <= i <= str_len(s),
    ensures
        byte_at(s, i) == 0 <==> str_len(s) == i,
{
    lemma_str_len(s);
}

proof fn lemma_diff_zero_from(fold: bool, a: Seq<u8>, b: Seq<u8>, n: int, i: int)
    requires
        0 <= i <= n,
        i <= str_len(a),
        i <= str_len(b),
    ensures
        diff_from(fold, a, b, n, i) == 0 <==> {
            &&& bounded_len(a, n) == bounded_len(b, n)
            &&& forall|j: int|
                i <= j < bounded_len(a, n) ==> rank(fold, #[trigger] byte_at(a, j)) == rank(
                    fold,
                    byte_at(b, j),
                )
        },
    decreases n - i,
{
    lemma_ends_at(a, i);
    lemma_ends_at(b, i);
    if i < n {
        let l = rank(fold, byte_at(a, i));
        let r = rank(fold, byte_at(b, i));
        if l != r {
            if i < bounded_len(a, n) {
                assert(rank(fold, byte_at(a, i)) != rank(fold, byte_at(b, i)));
            }
        } else if l != 0 {
            lemma_diff_zero_from(fold, a, b, n, i + 1);
        }
    }
}

/// A bounded comparison gives 0 exactly when the two strings agree on the
/// first bytes, up to the bound or the terminator, and end at the same offset
/// within the bound. Without case folding, to agree is to hold equal bytes.
pub proof fn lemma_zero_iff_same_prefix(fold: bool, a: Seq<u8>, b: Seq<u8>, n: int)
    requires
        0 <= n,
    ensures
        diff_from(fold, a, b, n, 0) == 0 <==> same_prefix(fold, a, b, n),
        same_prefix(false, a, b, n) <==> {
            &&& bounded_len(a, n) == bounded_len(b, n)
            &&& forall|j: int| 0 <= j < bounded_len(a, n) ==> byte_at(a, j) == byte_at(b, j)
        },
{
    lemma_str_len(a);
    lemma_str_len(b);
    lemma_diff_zero_from(fold, a, b, n, 0);
    if same_prefix(false, a, b, n) {
        assert forall|j: int| 0 <= j < bounded_len(a, n) implies byte_at(a, j) == byte_at(
            b,
            j,
        ) by {
            assert(rank(false, byte_at(a, j)) == rank(false, byte_at(b, j)));
        }
    }
}

/// The bytes that a duplicate of the first `n` bytes of the string in `s`
/// holds: those bytes, then a terminator.
pub open spec fn duplicate(s: Seq<u8>, n: int) -> Seq<u8> {
    s.take(bounded_len(s, n)).push(0)
}

/// A duplicate of a string compares equal to it, with and without case
/// folding, and has its length.
pub proof fn lemma_duplicate_equal(fold: bool, s: Seq<u8>)
    requires
        s.len() <= usize::MAX,
    ensures
        str_len(content(s).push(0)) == str_len(s),
        full_diff(fold, content(s).push(0), s) == 0,
{
    let n = usize::MAX as int;
    let d = content(s).push(0);
    lemma_str_len(s);
    assert(is_terminator(d, str_len(s)));
    lemma_str_len(d);
    assert(same_prefix(fold, d, s, n));
    lemma_zero_iff_same_prefix(fold, d, s, n);
}

/// Where `target` first occurs in the string held in `s`, terminator
/// included: `i` is that offset.
pub open spec fn first_at(s: Seq<u8>, target: u8, i: int) -> bool {
    &&& 0 <= i <= str_len(s)
    &&& byte_at(s, i) == target
    &&& forall|j: int| 0 <= j < i ==> byte_at(s, j) != target
}

/// The offset of the first byte of the string in `s` that equals the low byte
/// of `character`. The terminator belongs to the string, so a search for 0
/// finds it. `None` when the byte does not occur.
pub fn strchr(s: &[u8], character: i32) -> (at: Option<usize>)
    ensures
        match at {
            Some(i) => first_at(s@, low_byte(character as int) as u8, i as int),
            None => forall|j: int|
                0 <= j <= str_len(s@) ==> byte_at(s@, j) != low_byte(character as int),
        },
{
    let target = to_byte(character);
    let mut i: usize = 0;
    proof {
        lemma_str_len(s@);
    }
    while i < s.len()
        invariant
            0 <= i <= s.len(),
            i <= str_len(s@),
            is_terminator(s@, str_len(s@)),
            target == low_byte(character as int),
            forall|j: int| 0 <= j < i ==> byte_at(s@, j) != target,
        decreases s.len() - i,
    {
        let c = s[i];
        if c == target {
            return Some(i);
        }
        if c == 0 {
            return None;
        }
        i += 1;
    }
    if target == 0 {
        Some(i)
    } else {
        None
    }
}

/// What `strncpy` leaves in a destination that held `dst`: the first `num`
/// bytes are those of the string in `src`, cut off at `num` and filled up
/// with zero bytes; the rest is untouched.
pub open spec fn copied(dst: Seq<u8>, src: Seq<u8>, num: int) -> Seq<u8> {
    Seq::new(
        dst.len(),
        |i: int|
            if i < bounded_len(src, num) {
                src[i]
            } else if i < num {
                0u8
            } else {
                dst[i]
            },
    )
}

/// Copies the string held in `src` into the first `num` bytes of `dst`,
/// cutting it off there, and fills what is left of them with zero bytes.
pub fn strncpy(dst: &mut [u8], src: &[u8], num: usize)
    requires
        num <= old(dst)@.len(),
    ensures
        final(dst)@ == copied(old(dst)@, src@, num as int),
{
    let len = strnlen(src, num);
    proof {
        lemma_str_len(src@);
    }
    let mut i: usize = 0;
    while i < num
        invariant
            0 <= i <= num <= dst@.len(),
            dst@.len() == old(dst)@.len(),
            len == bounded_len(src@, num as int),
            len <= src@.len(),
            forall|j: int| 0 <= j < i ==> dst@[j] == copied(old(dst)@, src@, num as int)[j],
            forall|j: int| i <= j < dst@.len() ==> dst@[j] == old(dst)@[j],
        decreases num - i,
    {
        if i < len {
            dst[i] = src[i];
        } else {
            dst[i] = 0;
        }
        i += 1;
    }
    assert(dst@ =~= copied(old(dst)@, src@, num as int));
}

/// Writes the first `size` bytes of the string held in `src`, or all of it if
/// it is shorter, into a fresh block that has room for them and for the
/// terminator. Without a fresh block there is no copy.
pub fn duplicate_in(src: &[u8], size: usize, fresh: Option<Vec<u8>>) -> (dup: Option<Vec<u8>>)
    requires
        fresh matches Some(f) ==> f@.len() == bounded_len(src@, size as int) + 1,
    ensures
        match fresh {
            Some(_) => dup matches Some(d) && d@ == duplicate(src@, size as int),
            None => dup is None,
        },
{
    let mut dup = match fresh {
        Some(f) => f,
        None => {
            return None;
        },
    };
    let len = strnlen(src, size);
    proof {
        lemma_str_len(src@);
    }
    let mut i: usize = 0;
    while i < len
        invariant
            0 <= i <= len <= src@.len(),
            dup@.len() == len + 1,
            forall|j: int| 0 <= j < i ==> dup@[j] == src@[j],
        decreases len - i,
    {
        dup[i] = src[i];
        i += 1;
    }
    dup[len] = 0;
    assert(dup@ =~= duplicate(src@, size as int));
    Some(dup)
}

/// A fresh copy of the first `size` bytes of the string held in `src`, or of
/// all of it if it is shorter, with a terminator behind it. There is no copy
/// when its size, terminator included, is more than a size can be; for any
/// other string the host's allocator decides, and `None` means that it had no
/// memory. What comes of either answer is `duplicate_in`.
pub fn strndup(src: &[u8], size: usize) -> (dup: Option<Vec<u8>>)
    ensures
        bounded_len(src@, size as int) + 1 > usize::MAX ==> dup is None,
        dup matches Some(d) ==> d@ == duplicate(src@, size as int),
{
    let len = strnlen(src, size);
    match len.checked_add(1) {
        Some(total) => duplicate_in(src, size, malloc(total)),
        None => None,
    }
}

/// A fresh copy of the string held in `src`, with its terminator. There is
/// no copy when its size, terminator included, is more than a size can be;
/// for any other string the host's allocator decides, and `None` means that
/// it had no memory.
pub fn strdup(src: &[u8]) -> (dup: Option<Vec<u8>>)
    ensures
        str_len(src@) + 1 > usize::MAX ==> dup is None,
        dup matches Some(d) ==> d@ == content(src@).push(0),
{
    proof {
        lemma_str_len(src@);
        assert(src@.len() == src.len());
    }
    strndup(src, usize::MAX)
}

/// `core::str::from_utf8`: succeeds exactly on valid UTF-8, and the text it
/// gives is encoded by the very bytes it was given.
#[verifier::external_body]
fn utf8_text(bytes: &[u8]) -> (text: Option<&str>)
    ensures
        match text {
            Some(t) => valid_utf8(bytes@) && t.spec_bytes() == bytes@,
            None => !valid_utf8(bytes@),
        },
{
    core::str::from_utf8(bytes).ok()
}

/// The string held in `s` as text, if its bytes are valid UTF-8.
pub fn as_rust_str(s: &[u8]) -> (text: Option<&str>)
    ensures
        match text {
            Some(t) => valid_utf8(content(s@)) && t.spec_bytes() == content(s@),
            None => !valid_utf8(content(s@)),
        },
{
    let n = strlen(s);
    utf8_text(slice_subrange(s, 0, n))
}

} // verus!
