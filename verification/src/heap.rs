//! The allocator: blocks of bytes that their holder owns.
//!
//! A block is a `Vec<u8>`; the absent block, C's null pointer, is `None`. A
//! fresh block holds zero bytes. The size of a block is its length, so no
//! record of sizes is kept beside the blocks. When the host has no memory
//! left for a block, there is none: the caller gets `None` and has to look.

use vstd::prelude::*;

verus! {

/// A run of `n` zero bytes.
pub open spec fn zeros(n: int) -> Seq<u8> {
    Seq::new(n as nat, |i: int| 0u8)
}

/// What a block holds after it was resized to `size`: the bytes it held, up
/// to the new size, and zero bytes behind them where it grew.
pub open spec fn resized(old: Seq<u8>, size: int) -> Seq<u8> {
    Seq::new(
        size as nat,
        |i: int|
            if i < old.len() {
                old[i]
            } else {
                0u8
            },
    )
}

/// What a fresh block holds after the contents of an old one were moved into
/// it: the bytes of the old block as far as both reach, and behind them what
/// the fresh block held.
pub open spec fn overlaid(old: Seq<u8>, fresh: Seq<u8>) -> Seq<u8> {
    Seq::new(
        fresh.len(),
        |i: int|
            if i < old.len() {
                old[i]
            } else {
                fresh[i]
            },
    )
}

/// Asks the host for room for `size` bytes. Whether there is room for a
/// block that has bytes is the host's to say; for none at all there always is.
fn reserve(size: usize) -> (room: Option<Vec<u8>>)
    ensures
        size == 0 ==> room is Some,
        room matches Some(v) ==> v@ == Seq::<u8>::empty(),
{
    let mut v: Vec<u8> = Vec::new();
    if size == 0 {
        return Some(v);
    }
    match v.try_reserve(size) {
        Ok(_) => Some(v),
        Err(_) => None,
    }
}

/// The block of `size` bytes that is handed out once the host gave room for
/// it: zero-filled. Without room there is no block.
pub fn block_in(room: Option<Vec<u8>>, size: usize) -> (block: Option<Vec<u8>>)
    ensures
        match room {
            Some(_) => block matches Some(b) && b@ == zeros(size as int),
            None => block is None,
        },
{
    match room {
        Some(mut v) => {
            v.clear();
            v.resize(size, 0u8);
            assert(v@ =~= zeros(size as int));
            Some(v)
        },
        None => None,
    }
}

/// A fresh block of `size` bytes, or `None` when the host has no memory for it.
pub fn malloc(size: usize) -> (block: Option<Vec<u8>>)
    ensures
        size == 0 ==> block is Some,
        block matches Some(b) ==> b@ == zeros(size as int),
{
    block_in(reserve(size), size)
}

/// A fresh, zero-filled block for `num` items of `size` bytes each. There is
/// no block of zero bytes, and none whose size does not fit the address
/// space; for any other size the host's allocator decides, as in `malloc`,
/// and `None` means that it had no memory. What comes of either answer is
/// `block_in`.
pub fn calloc(num: usize, size: usize) -> (block: Option<Vec<u8>>)
    ensures
        num * size == 0 || num * size > usize::MAX ==> block is None,
        block matches Some(b) ==> b@ == zeros(num * size),
{
    match num.checked_mul(size) {
        Some(total) => if total == 0 {
            None
        } else {
            malloc(total)
        },
        None => None,
    }
}

/// Moves the contents of a block into a fresh one and gives the old block
/// up. Without a fresh block nothing happens, and the old block comes back
/// as it was.
pub fn move_into(ptr: Option<Vec<u8>>, fresh: Option<Vec<u8>>) -> (r: Result<
    Vec<u8>,
    Option<Vec<u8>>,
>)
    ensures
        match fresh {
            Some(f) => r matches Ok(b) && b@ == match ptr {
                Some(old) => overlaid(old@, f@),
                None => f@,
            },
            None => r matches Err(kept) && kept == ptr,
        },
{
    let mut block = match fresh {
        Some(f) => f,
        None => {
            return Err(ptr);
        },
    };
    match ptr {
        Some(old) => {
            let ghost start = block@;
            let size = block.len();
            let min = if old.len() < size {
                old.len()
            } else {
                size
            };
            let mut i: usize = 0;
            while i < min
                invariant
                    0 <= i <= min,
                    min <= old@.len(),
                    min <= size,
                    block@.len() == size,
                    start.len() == size,
                    forall|j: int| 0 <= j < i ==> block@[j] == old@[j],
                    forall|j: int| i <= j < size ==> block@[j] == start[j],
                decreases min - i,
            {
                block[i] = old[i];
                i += 1;
            }
            assert(block@ =~= overlaid(old@, start));
            free(Some(old));
            Ok(block)
        },
        None => Ok(block),
    }
}

/// Moves the contents of a block into a fresh block of `size` bytes and gives
/// the old block up: the first bytes, as many as both blocks hold, are kept.
/// With no block to move, this is `malloc`. When the host has no memory for
/// the fresh block, the old one comes back untouched.
pub fn realloc(ptr: Option<Vec<u8>>, size: usize) -> (r: Result<Vec<u8>, Option<Vec<u8>>>)
    ensures
        size == 0 ==> r is Ok,
        match r {
            Ok(b) => b@ == match ptr {
                Some(old) => resized(old@, size as int),
                None => zeros(size as int),
            },
            Err(kept) => kept == ptr,
        },
{
    let fresh = malloc(size);
    proof {
        if fresh is Some && ptr is Some {
            assert(overlaid(ptr->0@, fresh->0@) =~= resized(ptr->0@, size as int));
        }
    }
    move_into(ptr, fresh)
}

/// Gives a block up. Giving up the absent block does nothing.
pub fn free(ptr: Option<Vec<u8>>) {
    // the block is owned here and nowhere else: it ends with this call
}

/// A resized block keeps the first bytes of the old one, as many as both
/// hold, whatever the new size: a larger one, a smaller one, or none at all.
pub proof fn lemma_resize_keeps_prefix(old: Seq<u8>, size: int)
    requires
        0 <= size,
    ensures
        resized(old, size).len() == size,
        forall|i: int|
            0 <= i < size && i < old.len() ==> #[trigger] resized(old, size)[i] == old[i],
        forall|i: int| old.len() <= i < size ==> #[trigger] resized(old, size)[i] == 0,
        size <= old.len() ==> resized(old, size) == old.take(size),
        size == 0 ==> resized(old, size) == Seq::<u8>::empty(),
{
    if size <= old.len() {
        assert(resized(old, size) =~= old.take(size));
    }
    if size == 0 {
        assert(resized(old, size) =~= Seq::<u8>::empty());
    }
}

} // verus!
