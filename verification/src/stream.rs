//! Streaming: filling the ring buffer before the engine starts, and the
//! handle through which the buffer is written once the engine reads it.

use vstd::prelude::*;
use vstd::arithmetic::div_mod::{lemma_add_mod_noop_right, lemma_mod_multiples_vanish, lemma_small_mod};
use crate::ring::{RingBuffer, RingView};

verus! {

/// The first `n` bytes of `pattern` repeated without end.
pub open spec fn repeated(pattern: Seq<u8>, n: nat) -> Seq<u8> {
    Seq::new(n, |i: int| pattern[i % (pattern.len() as int)])
}

/// A whole number of repetitions, followed by the start of one more, is the
/// start of the pattern repeated without end.
proof fn repeated_more(pattern: Seq<u8>, whole: nat, part: nat)
    requires
        0 < pattern.len(),
        part <= pattern.len(),
    ensures
        repeated(pattern, whole * pattern.len()) + pattern.take(part as int) == repeated(
            pattern,
            whole * pattern.len() + part,
        ),
{
    let len = pattern.len() as int;
    let a = repeated(pattern, whole * pattern.len()) + pattern.take(part as int);
    let b = repeated(pattern, whole * pattern.len() + part);
    assert forall|i: int| 0 <= i < b.len() implies a[i] == b[i] by {
        if i >= whole * len {
            let j = i - whole * len;
            lemma_mod_multiples_vanish(whole as int, j, len);
            lemma_small_mod(j as nat, len as nat);
            assert(i == len * whole + j) by (nonlinear_arith)
                requires
                    j == i - whole * len,
            ;
        }
    }
    assert(a =~= b);
}

impl RingBuffer {
    /// Fills the buffer with repetitions of `pattern` before streaming
    /// starts: the pattern is pushed again and again until a push is cut
    /// short, which fills the buffer. The answer is the number of bytes that
    /// went in. An empty pattern can never be cut short, so nothing is
    /// pushed for it.
    pub fn prefill(&mut self, pattern: &[u8]) -> (accepted: usize)
        requires
            old(self).wf(),
        ensures
            final(self).wf(),
            final(self).descriptor_count() == old(self).descriptor_count(),
            final(self).descriptor_size() == old(self).descriptor_size(),
            pattern@.len() == 0 ==> accepted == 0 && final(self)@ == old(self)@,
            pattern@.len() > 0 ==> {
                &&& accepted == old(self)@.free()
                &&& final(self)@.is_full()
                &&& final(self)@ == old(self)@.push(repeated(pattern@, old(self)@.free()))
            },
    {
        if pattern.len() == 0 {
            return 0;
        }
        let ghost start = self@;
        let ghost len = pattern@.len();
        let mut accepted: usize = 0;
        let ghost mut whole: nat = 0;
        proof {
            self.view_is_wf();
            assert(repeated(pattern@, 0).take(0) =~= Seq::<u8>::empty());
            assert(start.pending + Seq::<u8>::empty() =~= start.pending);
            lemma_small_mod(start.cursor, start.capacity);
            assert(whole * len == 0) by (nonlinear_arith)
                requires
                    whole == 0,
            ;
        }
        loop
            invariant_except_break
                accepted == whole * len,
            invariant
                self.wf(),
                start.wf(),
                len == pattern@.len(),
                len > 0,
                self.descriptor_count() == old(self).descriptor_count(),
                self.descriptor_size() == old(self).descriptor_size(),
                accepted <= start.free(),
                self@.capacity == start.capacity,
                self@.cursor == (start.cursor + accepted) % (start.capacity as int),
                self@.pending == start.pending + repeated(pattern@, accepted as nat),
            ensures
                accepted == start.free(),
            decreases start.free() - accepted,
        {
            let ghost before = self@;
            let taken = self.push(pattern);
            proof {
                self.view_is_wf();
                assert(before.pending.len() == start.pending.len() + accepted);
                lemma_add_mod_noop_right(taken as int, start.cursor + accepted, start.capacity as int);
                repeated_more(pattern@, whole, taken as nat);
                assert(self@.pending =~= start.pending + repeated(
                    pattern@,
                    (accepted + taken) as nat,
                ));
                whole = whole + 1;
                assert(taken == len ==> accepted + taken == whole * len) by (nonlinear_arith)
                    requires
                        accepted == (whole - 1) * len,
                ;
            }
            accepted = accepted + taken;
            if taken < pattern.len() {
                break;
            }
        }
        proof {
            let bytes = repeated(pattern@, start.free());
            assert(bytes.take(start.free() as int) =~= bytes);
        }
        accepted
    }
}

/// The streaming handle: the ring buffer once the engine reads it. It is
/// made from the buffer and never gives the buffer back.
pub struct Transfer {
    ring: RingBuffer,
}

impl View for Transfer {
    type V = RingView;

    closed spec fn view(&self) -> RingView {
        self.ring@
    }
}

impl Transfer {
    pub closed spec fn wf(&self) -> bool {
        self.ring.wf()
    }

    pub closed spec fn spec_descriptor_count(&self) -> usize {
        self.ring.descriptor_count()
    }

    pub closed spec fn spec_descriptor_size(&self) -> usize {
        self.ring.descriptor_size()
    }

    /// A well-formed transfer is well formed as a value.
    pub proof fn view_is_wf(&self)
        requires
            self.wf(),
        ensures
            self@.wf(),
            self@.capacity == self.descriptor_count() * self.descriptor_size(),
    {
        self.ring.view_is_wf();
    }

    /// Starts streaming from `ring`, with everything that is pending in it.
    pub fn start(ring: RingBuffer) -> (transfer: Transfer)
        requires
            ring.wf(),
        ensures
            transfer.wf(),
            transfer@ == ring@,
            transfer.descriptor_count() == ring.descriptor_count(),
            transfer.descriptor_size() == ring.descriptor_size(),
    {
        Transfer { ring }
    }

    /// The number of descriptors in the chain.
    #[verifier::when_used_as_spec(spec_descriptor_count)]
    pub fn descriptor_count(&self) -> (count: usize)
        ensures
            count == self.descriptor_count(),
    {
        self.ring.descriptor_count()
    }

    /// The number of bytes that one descriptor covers.
    #[verifier::when_used_as_spec(spec_descriptor_size)]
    pub fn descriptor_size(&self) -> (size: usize)
        ensures
            size == self.descriptor_size(),
    {
        self.ring.descriptor_size()
    }

    /// The descriptor that the engine reads next.
    pub fn read_descriptor(&self) -> (index: usize)
        requires
            self.wf(),
        ensures
            index == self@.read_cursor() / (self.descriptor_size() as int),
            index < self.descriptor_count(),
    {
        self.ring.read_descriptor()
    }

    /// The number of bytes that a push can take now.
    pub fn free(&self) -> (free: usize)
        requires
            self.wf(),
        ensures
            free == self@.free(),
    {
        self.ring.free()
    }

    /// The storage, for the engine to read.
    pub fn storage(&self) -> (bytes: &[u8])
        requires
            self.wf(),
        ensures
            bytes@.len() == self@.capacity,
            forall|i: int|
                0 <= i < self@.pending.len() ==> bytes@[self@.place(i)] == #[trigger] self@.pending[i],
    {
        self.ring.storage()
    }

    /// Copies the leading bytes of `bytes` into the room that the engine
    /// has left and answers how many it took. It takes what fits and never
    /// waits.
    pub fn push(&mut self, bytes: &[u8]) -> (accepted: usize)
        requires
            old(self).wf(),
        ensures
            final(self).wf(),
            accepted == old(self)@.accepts(bytes@.len()),
            final(self)@ == old(self)@.push(bytes@),
            final(self).descriptor_count() == old(self).descriptor_count(),
            final(self).descriptor_size() == old(self).descriptor_size(),
    {
        self.ring.push(bytes)
    }

    /// Takes note that the engine has drained `reported` bytes, and answers
    /// how many bytes that released. No more is released than was pending.
    pub fn drained(&mut self, reported: usize) -> (released: usize)
        requires
            old(self).wf(),
        ensures
            final(self).wf(),
            released == old(self)@.releases(reported as nat),
            final(self)@ == old(self)@.drain(reported as nat),
            final(self).descriptor_count() == old(self).descriptor_count(),
            final(self).descriptor_size() == old(self).descriptor_size(),
    {
        self.ring.drained(reported)
    }
}

} // verus!
