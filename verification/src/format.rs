//! The bounded sink of the formatted-output routines.
//!
//! A formatter hands its output over piece by piece. The sink keeps what
//! fits into a destination of fixed capacity, counts everything, and leaves
//! the destination terminated whatever was written.

use crate::cstring::{content, is_terminator, lemma_str_len, str_len};
use crate::heap::zeros;
use vstd::prelude::*;

verus! {

/// What a destination of `capacity` bytes holds once `text` was formatted
/// into it: the text, cut off so that one byte is left for the terminator,
/// and zero bytes behind it.
pub open spec fn terminated(text: Seq<u8>, capacity: int) -> Seq<u8> {
    Seq::new(
        capacity as nat,
        |i: int|
            if i < text.len() && i < capacity - 1 {
                text[i]
            } else {
                0u8
            },
    )
}

/// A destination of fixed capacity that takes formatted text in pieces.
pub struct BufferWrite {
    buf: Vec<u8>,
    at: usize,
    text: Ghost<Seq<u8>>,
}

impl BufferWrite {
    #[verifier::type_invariant]
    spec fn well_formed(self) -> bool {
        &&& self.at == self.text@.len()
        &&& forall|i: int|
            0 <= i < self.buf@.len() ==> self.buf@[i] == if i < self.at {
                self.text@[i]
            } else {
                0u8
            }
    }

    /// Everything that was handed to the sink so far, whether it fitted or not.
    pub closed spec fn text(&self) -> Seq<u8> {
        self.text@
    }

    /// The size of the destination.
    pub closed spec fn capacity(&self) -> int {
        self.buf@.len() as int
    }

    /// An empty sink over a destination of `capacity` zero bytes.
    pub fn new(capacity: usize) -> (sink: Self)
        ensures
            sink.text() == Seq::<u8>::empty(),
            sink.capacity() == capacity,
    {
        let mut buf: Vec<u8> = Vec::new();
        buf.resize(capacity, 0u8);
        BufferWrite { buf, at: 0, text: Ghost(Seq::empty()) }
    }

    /// The number of bytes handed to the sink so far: the length that the
    /// whole text would have.
    pub fn produced(&self) -> (n: usize)
        ensures
            n == self.text().len(),
    {
        proof {
            use_type_invariant(self);
        }
        self.at
    }

    /// Takes the next piece of text. What lies past the capacity is counted
    /// and dropped.
    pub fn write_str(&mut self, s: &[u8])
        requires
            old(self).text().len() + s@.len() <= usize::MAX,
        ensures
            final(self).text() == old(self).text() + s@,
            final(self).capacity() == old(self).capacity(),
    {
        proof {
            use_type_invariant(&*self);
        }
        let now = self.at;
        let ghost before = self.text@;
        let ghost after = before + s@;
        let mut buf: Vec<u8> = Vec::new();
        core::mem::swap(&mut self.buf, &mut buf);
        let cap = buf.len();
        if now < cap {
            let room = cap - now;
            let min = if s.len() < room {
                s.len()
            } else {
                room
            };
            let mut i: usize = 0;
            while i < min
                invariant
                    0 <= i <= min,
                    min <= s@.len(),
                    now + min <= cap,
                    cap == buf@.len(),
                    now == before.len(),
                    after == before + s@,
                    forall|j: int| 0 <= j < now + i ==> buf@[j] == after[j],
                    forall|j: int| now + i <= j < cap ==> buf@[j] == 0,
                decreases min - i,
            {
                buf[now + i] = s[i];
                i += 1;
            }
        }
        *self = BufferWrite { buf, at: now + s.len(), text: Ghost(after) };
    }

    /// Ends the text: puts the terminator behind what was kept, or into the
    /// last byte of the destination if the text filled it. Returns the
    /// destination and the length of the whole text.
    pub fn finish(self) -> (out: (Vec<u8>, usize))
        requires
            self.capacity() >= 1,
        ensures
            out.0@ == terminated(self.text(), self.capacity()),
            out.1 == self.text().len(),
    {
        proof {
            use_type_invariant(&self);
        }
        let at = self.at;
        let mut buf = self.buf;
        let last = buf.len() - 1;
        let end = if at < last {
            at
        } else {
            last
        };
        buf[end] = 0;
        assert(buf@ =~= terminated(self.text@, self.buf@.len() as int));
        (buf, at)
    }

    /// Ends the formatting, given what the formatter reported. A negative
    /// result is a formatting error: whatever reached the sink before it is
    /// given up, the destination holds the empty string, and the result is
    /// handed on. Any other result ends the text as `finish` does, and the
    /// length of the whole text is what the caller gets.
    pub fn conclude(self, result: i32) -> (out: (Vec<u8>, i32))
        requires
            self.capacity() >= 1,
            self.text().len() <= i32::MAX,
        ensures
            result < 0 ==> out.0@ == zeros(self.capacity()) && out.1 == result,
            result >= 0 ==> out.0@ == terminated(self.text(), self.capacity()) && out.1
                == self.text().len(),
    {
        if result < 0 {
            let mut buf = self.buf;
            let len = buf.len();
            let mut i: usize = 0;
            while i < len
                invariant
                    0 <= i <= len,
                    len == buf@.len(),
                    forall|j: int| 0 <= j < i ==> buf@[j] == 0,
                decreases len - i,
            {
                buf[i] = 0;
                i += 1;
            }
            assert(buf@ =~= zeros(len as int));
            (buf, result)
        } else {
            let (buf, total) = self.finish();
            (buf, total as i32)
        }
    }
}

/// The length at which a text is cut off to fit a destination: one byte of
/// the capacity is the terminator's.
pub open spec fn kept_len(text: Seq<u8>, capacity: int) -> int {
    if text.len() < capacity - 1 {
        text.len() as int
    } else {
        capacity - 1
    }
}

/// A destination of at least one byte is never left without a terminator:
/// whatever text was formatted into it, it holds a string that, with its
/// terminator, fits the capacity, and that string is the text cut off at
/// one byte less than the capacity. With no text at all, and after a
/// formatting error, it is the empty string in a destination of zero bytes.
pub proof fn lemma_terminated_within_capacity(text: Seq<u8>, capacity: int)
    requires
        capacity >= 1,
    ensures
        terminated(text, capacity).len() == capacity,
        terminated(text, capacity)[kept_len(text, capacity)] == 0,
        str_len(terminated(text, capacity)) + 1 <= capacity,
        str_len(terminated(text, capacity)) <= kept_len(text, capacity),
        content(terminated(text, capacity)) == content(text.take(kept_len(text, capacity))),
        terminated(Seq::<u8>::empty(), capacity) == zeros(capacity),
        str_len(zeros(capacity)) == 0,
{
    let t = terminated(text, capacity);
    let cut = text.take(kept_len(text, capacity));
    lemma_str_len(cut);
    let n = str_len(cut);
    assert(cut.len() == kept_len(text, capacity));
    assert forall|j: int| 0 <= j < n implies t[j] != 0 by {
        assert(t[j] == cut[j]);
    }
    if n < cut.len() {
        assert(t[n] == cut[n]);
    }
    assert(is_terminator(t, n));
    lemma_str_len(t);
    assert(content(t) =~= content(cut));
    let e = terminated(Seq::<u8>::empty(), capacity);
    assert(e =~= zeros(capacity));
    assert(is_terminator(e, 0));
    lemma_str_len(e);
}

} // verus!
