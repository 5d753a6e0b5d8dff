//! The pixel stream buffer: a ring of bytes over a chain of descriptors of
//! one size, written by software at one end and drained by the DMA engine at
//! the other.

use vstd::prelude::*;

verus! {

/// The smaller of two numbers.
pub open spec fn least(a: nat, b: nat) -> nat {
    if a <= b {
        a
    } else {
        b
    }
}

/// The place `steps` behind `from` in storage of `capacity` bytes, going
/// around the end.
pub open spec fn slot(capacity: int, from: int, steps: int) -> int {
    if from + steps < capacity {
        from + steps
    } else {
        from + steps - capacity
    }
}

/// The number of steps from `from` to `at`, going around the end.
pub open spec fn distance(capacity: int, from: int, at: int) -> int {
    if at >= from {
        at - from
    } else {
        at + capacity - from
    }
}

/// A ring buffer as a value: its capacity, the place of the next write, and
/// the bytes written and not yet drained, oldest first.
pub struct RingView {
    pub capacity: nat,
    pub cursor: nat,
    pub pending: Seq<u8>,
}

impl RingView {
    /// The buffer holds storage, the cursor lies inside it, and what is
    /// pending fits.
    pub open spec fn wf(self) -> bool {
        &&& self.capacity > 0
        &&& self.cursor < self.capacity
        &&& self.pending.len() <= self.capacity
    }

    /// An empty buffer with the cursor at the start.
    pub open spec fn empty(capacity: nat) -> RingView {
        RingView { capacity, cursor: 0, pending: Seq::empty() }
    }

    /// The room that is left.
    pub open spec fn free(self) -> nat {
        (self.capacity - self.pending.len()) as nat
    }

    /// The place in the storage of the oldest pending byte.
    pub open spec fn read_cursor(self) -> int {
        slot(self.capacity as int, self.cursor as int, self.free() as int)
    }

    /// The place in the storage of pending byte `i`.
    pub open spec fn place(self, i: int) -> int {
        slot(self.capacity as int, self.read_cursor(), i)
    }

    pub open spec fn is_full(self) -> bool {
        self.pending.len() == self.capacity
    }

    /// Of `offered` bytes, the number that a push takes: all of them, or as
    /// many as there is room for.
    pub open spec fn accepts(self, offered: nat) -> nat {
        least(offered, self.free())
    }

    /// The buffer after a push of `bytes`: the leading bytes that fit are
    /// pending behind what was pending, and the cursor has moved on by their
    /// number, around the end of the storage.
    pub open spec fn push(self, bytes: Seq<u8>) -> RingView {
        let taken = self.accepts(bytes.len());
        RingView {
            capacity: self.capacity,
            cursor: (self.cursor + taken) % self.capacity,
            pending: self.pending + bytes.take(taken as int),
        }
    }

    /// Of `reported` bytes, the number that a drain releases: no more than
    /// are pending.
    pub open spec fn releases(self, reported: nat) -> nat {
        least(reported, self.pending.len())
    }

    /// The buffer after the engine has drained `reported` bytes: the oldest
    /// bytes are gone, and the cursor stays.
    pub open spec fn drain(self, reported: nat) -> RingView {
        RingView {
            capacity: self.capacity,
            cursor: self.cursor,
            pending: self.pending.skip(self.releases(reported) as int),
        }
    }
}

/// Something that happens to a ring buffer.
pub enum RingEvent {
    /// Software pushes these bytes.
    Push(Seq<u8>),
    /// The engine reports that it has drained this many bytes.
    Drain(nat),
}

/// The buffer after a sequence of events.
pub open spec fn after_events(start: RingView, events: Seq<RingEvent>) -> RingView
    decreases events.len(),
{
    if events.len() == 0 {
        start
    } else {
        let before = after_events(start, events.drop_last());
        match events.last() {
            RingEvent::Push(bytes) => before.push(bytes),
            RingEvent::Drain(reported) => before.drain(reported),
        }
    }
}

/// A push into an empty buffer of capacity `m` takes all of `n` bytes if
/// `n` is at most `m`, and `m` of them otherwise; a push into a full buffer
/// takes nothing; and a push of at least `m` bytes into the empty buffer
/// fills it.
pub proof fn push_into_empty_and_full(m: nat, bytes: Seq<u8>, full: RingView, more: Seq<u8>)
    requires
        m > 0,
        full.wf(),
        full.is_full(),
    ensures
        bytes.len() <= m ==> RingView::empty(m).accepts(bytes.len()) == bytes.len(),
        bytes.len() > m ==> RingView::empty(m).accepts(bytes.len()) == m,
        bytes.len() >= m ==> RingView::empty(m).push(bytes).is_full(),
        full.accepts(more.len()) == 0,
        full.push(more).pending == full.pending,
        full.push(more).cursor == full.cursor,
{
    assert(more.take(0) =~= Seq::<u8>::empty());
    assert(full.pending + Seq::<u8>::empty() =~= full.pending);
    assert((full.cursor + 0) % full.capacity == full.cursor) by (nonlinear_arith)
        requires
            full.cursor < full.capacity,
    ;
}

/// A push or a drain leaves a well-formed buffer well formed, with the
/// capacity it had.
pub proof fn event_keeps_wf(ring: RingView, event: RingEvent)
    requires
        ring.wf(),
    ensures
        after_events(ring, seq![event]).wf(),
        after_events(ring, seq![event]).capacity == ring.capacity,
{
    let events = seq![event];
    assert(events.drop_last() =~= Seq::<RingEvent>::empty());
    assert(after_events(ring, events.drop_last()) == ring);
    match event {
        RingEvent::Push(bytes) => {
            let taken = ring.accepts(bytes.len());
            assert(0 <= (ring.cursor + taken) % ring.capacity < ring.capacity)
                by (nonlinear_arith)
                requires
                    ring.capacity > 0,
            ;
        },
        RingEvent::Drain(reported) => {},
    }
}

/// However often the cursor has gone around the storage, it lies inside
/// the storage, and once everything pending is drained the buffer takes a
/// push of its whole capacity again.
pub proof fn cursor_stays_in_range(start: RingView, events: Seq<RingEvent>)
    requires
        start.wf(),
    ensures
        after_events(start, events).wf(),
        after_events(start, events).capacity == start.capacity,
        after_events(start, events).cursor < start.capacity,
        after_events(start, events).drain(start.capacity).accepts(start.capacity)
            == start.capacity,
    decreases events.len(),
{
    if events.len() > 0 {
        cursor_stays_in_range(start, events.drop_last());
        let before = after_events(start, events.drop_last());
        event_keeps_wf(before, events.last());
        let one = seq![events.last()];
        assert(one.drop_last() =~= Seq::<RingEvent>::empty());
        assert(after_events(before, one.drop_last()) == before);
    }
}

/// The largest storage that can be reserved, in bytes.
pub const MAX_STORAGE: usize = isize::MAX as usize;

/// Why a ring buffer cannot be made.
#[derive(Clone, Copy, Debug, PartialEq, Eq, Structural)]
pub enum RingError {
    /// The chain has no descriptor.
    NoDescriptors,
    /// A descriptor covers no byte.
    EmptyDescriptor,
    /// The storage would be larger than `MAX_STORAGE`.
    TooLarge,
}

/// The pixel stream buffer.
pub struct RingBuffer {
    storage: Vec<u8>,
    descriptor_count: usize,
    descriptor_size: usize,
    write: usize,
    filled: usize,
}

impl View for RingBuffer {
    type V = RingView;

    closed spec fn view(&self) -> RingView {
        RingView {
            capacity: self.storage@.len(),
            cursor: self.write as nat,
            pending: Seq::new(
                self.filled as nat,
                |i: int| self.storage@[slot(self.storage@.len() as int, self.read(), i)],
            ),
        }
    }
}

impl RingBuffer {
    /// The place of the oldest pending byte.
    closed spec fn read(&self) -> int {
        slot(self.storage@.len() as int, self.write as int, self.storage@.len() - self.filled)
    }

    /// The chain covers the storage exactly, the storage is not empty, and
    /// the cursors lie inside it.
    pub closed spec fn wf(&self) -> bool {
        &&& self.descriptor_count * self.descriptor_size == self.storage@.len()
        &&& 0 < self.storage@.len() <= MAX_STORAGE
        &&& self.write < self.storage@.len()
        &&& self.filled <= self.storage@.len()
    }

    pub closed spec fn spec_descriptor_count(&self) -> usize {
        self.descriptor_count
    }

    pub closed spec fn spec_descriptor_size(&self) -> usize {
        self.descriptor_size
    }

    /// A well-formed buffer is well formed as a value, and its capacity is
    /// the number of its descriptors times their size.
    pub proof fn view_is_wf(&self)
        requires
            self.wf(),
        ensures
            self@.wf(),
            self@.capacity == self.descriptor_count() * self.descriptor_size(),
            self@.capacity <= usize::MAX,
    {
    }

    /// An empty buffer over `descriptor_count` descriptors of
    /// `descriptor_size` bytes each. The storage is reserved here, once.
    pub fn new(descriptor_count: usize, descriptor_size: usize) -> (r: Result<RingBuffer, RingError>)
        ensures
            match r {
                Ok(ring) => {
                    &&& descriptor_count > 0
                    &&& descriptor_size > 0
                    &&& descriptor_count * descriptor_size <= MAX_STORAGE
                    &&& ring.wf()
                    &&& ring@ == RingView::empty((descriptor_count * descriptor_size) as nat)
                    &&& ring.descriptor_count() == descriptor_count
                    &&& ring.descriptor_size() == descriptor_size
                },
                Err(RingError::NoDescriptors) => descriptor_count == 0,
                Err(RingError::EmptyDescriptor) => descriptor_count > 0 && descriptor_size == 0,
                Err(RingError::TooLarge) => {
                    &&& descriptor_count > 0
                    &&& descriptor_size > 0
                    &&& descriptor_count * descriptor_size > MAX_STORAGE
                },
            },
    {
        if descriptor_count == 0 {
            return Err(RingError::NoDescriptors);
        }
        if descriptor_size == 0 {
            return Err(RingError::EmptyDescriptor);
        }
        match descriptor_count.checked_mul(descriptor_size) {
            None => Err(RingError::TooLarge),
            Some(capacity) => {
                if capacity > MAX_STORAGE {
                    return Err(RingError::TooLarge);
                }
                proof {
                    assert(descriptor_count * descriptor_size > 0) by (nonlinear_arith)
                        requires
                            descriptor_count > 0,
                            descriptor_size > 0,
                    ;
                }
                let ring = RingBuffer {
                    storage: vec![0u8; capacity],
                    descriptor_count,
                    descriptor_size,
                    write: 0,
                    filled: 0,
                };
                proof {
                    assert(ring@.pending =~= Seq::<u8>::empty());
                }
                Ok(ring)
            },
        }
    }

    /// The number of descriptors in the chain.
    #[verifier::when_used_as_spec(spec_descriptor_count)]
    pub fn descriptor_count(&self) -> (count: usize)
        ensures
            count == self.descriptor_count(),
    {
        self.descriptor_count
    }

    /// The number of bytes that one descriptor covers.
    #[verifier::when_used_as_spec(spec_descriptor_size)]
    pub fn descriptor_size(&self) -> (size: usize)
        ensures
            size == self.descriptor_size(),
    {
        self.descriptor_size
    }

    /// The number of bytes of storage.
    pub fn capacity(&self) -> (capacity: usize)
        ensures
            capacity == self@.capacity,
    {
        self.storage.len()
    }

    /// The number of bytes that a push can take now.
    pub fn free(&self) -> (free: usize)
        requires
            self.wf(),
        ensures
            free == self@.free(),
    {
        self.storage.len() - self.filled
    }

    /// The place in the storage where the next push starts to write.
    pub fn write_cursor(&self) -> (cursor: usize)
        ensures
            cursor == self@.cursor,
    {
        self.write
    }

    /// The descriptor that covers the oldest pending byte: the one that the
    /// engine reads next. With nothing pending it is the descriptor that
    /// the next push writes into.
    pub fn read_descriptor(&self) -> (index: usize)
        requires
            self.wf(),
        ensures
            index == self@.read_cursor() / (self.descriptor_size() as int),
            index < self.descriptor_count(),
    {
        let capacity = self.storage.len();
        let read = if self.write >= self.filled {
            self.write - self.filled
        } else {
            capacity - self.filled + self.write
        };
        proof {
            let size = self.descriptor_size as int;
            let count = self.descriptor_count as int;
            let at = read as int;
            assert(size > 0 && at / size < count) by (nonlinear_arith)
                requires
                    0 <= at < count * size,
                    count >= 0,
                    size >= 0,
            ;
        }
        read / self.descriptor_size
    }

    /// The storage, for the engine to read.
    pub fn storage(&self) -> (bytes: &[u8])
        requires
            self.wf(),
        ensures
            bytes@.len() == self@.capacity,
            forall|i: int|
                0 <= i < self@.pending.len() ==> bytes@[self@.place(i)] == #[trigger] self@.pending[i],
    {
        self.storage.as_slice()
    }

    /// Copies the leading bytes of `bytes` into the room that is left
    /// and answers how many it took. It takes what fits and never waits.
    pub fn push(&mut self, bytes: &[u8]) -> (accepted: usize)
        requires
            old(self).wf(),
        ensures
            final(self).wf(),
            accepted == old(self)@.accepts(bytes@.len()),
            final(self)@ == old(self)@.push(bytes@),
            final(self).descriptor_count() == old(self).descriptor_count(),
            final(self).descriptor_size() == old(self).descriptor_size(),
    {
        let capacity = self.storage.len();
        let free = capacity - self.filled;
        let accepted = if bytes.len() <= free {
            bytes.len()
        } else {
            free
        };
        let ghost before = self.storage@;
        let start = self.write;
        let mut at = self.write;
        let mut i: usize = 0;
        while i < accepted
            invariant
                i <= accepted <= bytes@.len(),
                accepted <= capacity - self.filled,
                capacity == before.len(),
                self.storage@.len() == capacity,
                start < capacity,
                self.write == start,
                self.filled == old(self).filled,
                self.descriptor_count == old(self).descriptor_count,
                self.descriptor_size == old(self).descriptor_size,
                at == slot(capacity as int, start as int, i as int),
                forall|p: int|
                    0 <= p < capacity ==> #[trigger] self.storage@[p] == if distance(
                        capacity as int,
                        start as int,
                        p,
                    ) < i {
                        bytes@[distance(capacity as int, start as int, p)]
                    } else {
                        before[p]
                    },
            decreases accepted - i,
        {
            self.storage[at] = bytes[i];
            at += 1;
            if at == capacity {
                at = 0;
            }
            i += 1;
        }
        self.write = at;
        self.filled = self.filled + accepted;
        proof {
            let cap = capacity as int;
            let then = old(self)@;
            let now = self@;
            assert(slot(cap, start as int, accepted as int) == (start + accepted) % cap) by {
                if start + accepted < cap {
                    assert((start + accepted) % cap == start + accepted) by (nonlinear_arith)
                        requires
                            0 <= start + accepted < cap,
                    ;
                } else {
                    assert((start + accepted) % cap == start + accepted - cap) by (nonlinear_arith)
                        requires
                            cap <= start + accepted < 2 * cap,
                    ;
                }
            }
            assert(self.read() == old(self).read());
            assert(now.pending =~= then.pending + bytes@.take(accepted as int)) by {
                assert forall|j: int| 0 <= j < now.pending.len() implies now.pending[j] == (
                then.pending + bytes@.take(accepted as int))[j] by {
                    let p = slot(cap, old(self).read(), j);
                    if j < then.pending.len() {
                        assert(distance(cap, start as int, p) >= accepted);
                    } else {
                        assert(distance(cap, start as int, p) == j - then.pending.len());
                    }
                }
            }
        }
        accepted
    }

    /// Takes note that the engine has drained `reported` bytes, and answers
    /// how many bytes that released. No more is released than was pending.
    pub(crate) fn drained(&mut self, reported: usize) -> (released: usize)
        requires
            old(self).wf(),
        ensures
            final(self).wf(),
            released == old(self)@.releases(reported as nat),
            final(self)@ == old(self)@.drain(reported as nat),
            final(self).descriptor_count() == old(self).descriptor_count(),
            final(self).descriptor_size() == old(self).descriptor_size(),
    {
        let released = if reported <= self.filled {
            reported
        } else {
            self.filled
        };
        self.filled = self.filled - released;
        proof {
            let cap = self.storage@.len() as int;
            assert(self@.pending =~= old(self)@.pending.skip(released as int)) by {
                assert forall|j: int| 0 <= j < self@.pending.len() implies self@.pending[j] == old(
                    self,
                )@.pending[j + released] by {
                    assert(slot(cap, self.read(), j) == slot(cap, old(self).read(), j + released));
                }
            }
        }
        released
    }
}

} // verus!
