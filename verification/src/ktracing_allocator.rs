//! Heap accounting of a tracing allocator: how many bytes are in use, and
//! the most that ever were.

use vstd::prelude::*;

verus! {

/// The byte counts that a tracing allocator keeps as it allocates and
/// frees on behalf of another allocator.
pub struct TracingAllocator {
    memory_used: usize,
    peak_memory_used: usize,
}

impl TracingAllocator {
    /// Bytes in use.
    pub closed spec fn used(&self) -> int {
        self.memory_used as int
    }

    /// The most bytes that were ever in use.
    pub closed spec fn peak(&self) -> int {
        self.peak_memory_used as int
    }

    /// The bytes in use and the peak.
    pub open spec fn counts(&self) -> (int, int) {
        (self.used(), self.peak())
    }

    /// The peak is never below what is in use.
    pub open spec fn wf(&self) -> bool {
        self.used() <= self.peak()
    }

    pub fn new() -> (r: Self)
        ensures
            r.used() == 0,
            r.peak() == 0,
            r.wf(),
    {
        TracingAllocator { memory_used: 0, peak_memory_used: 0 }
    }

    fn grow(&mut self, size: usize)
        requires
            old(self).used() + size <= usize::MAX,
        ensures
            final(self).used() == old(self).used() + size,
            final(self).peak() == if old(self).peak() >= old(self).used() + size {
                old(self).peak()
            } else {
                old(self).used() + size
            },
    {
        let previous = self.memory_used;
        self.memory_used = previous + size;
        if self.peak_memory_used < previous + size {
            self.peak_memory_used = previous + size;
        }
    }

    /// Counts `size` more bytes in use.
    pub fn on_alloc(&mut self, size: usize)
        requires
            old(self).used() + size <= usize::MAX,
        ensures
            final(self).used() == old(self).used() + size,
            final(self).peak() == if old(self).peak() >= old(self).used() + size {
                old(self).peak()
            } else {
                old(self).used() + size
            },
            old(self).wf() ==> final(self).counts() == count_step(old(self).counts(), AllocEvent::Alloc(size as int)),
            old(self).wf() ==> final(self).wf(),
    {
        self.grow(size);
    }

    /// Counts `size` more bytes in use, for zeroed memory.
    pub fn on_alloc_zeroed(&mut self, size: usize)
        requires
            old(self).used() + size <= usize::MAX,
        ensures
            final(self).used() == old(self).used() + size,
            final(self).peak() == if old(self).peak() >= old(self).used() + size {
                old(self).peak()
            } else {
                old(self).used() + size
            },
            old(self).wf() ==> final(self).counts() == count_step(old(self).counts(), AllocEvent::AllocZeroed(size as int)),
            old(self).wf() ==> final(self).wf(),
    {
        self.grow(size);
    }

    /// Counts `size` fewer bytes in use.
    pub fn on_dealloc(&mut self, size: usize)
        requires
            size <= old(self).used(),
        ensures
            final(self).used() == old(self).used() - size,
            final(self).peak() == old(self).peak(),
            old(self).wf() ==> final(self).counts() == count_step(old(self).counts(), AllocEvent::Dealloc(size as int)),
            old(self).wf() ==> final(self).wf(),
    {
        self.memory_used = self.memory_used - size;
    }

    /// Counts a block of `old_size` bytes that now takes `new_size`.
    pub fn on_realloc(&mut self, old_size: usize, new_size: usize)
        requires
            old_size <= old(self).used(),
            old_size <= i64::MAX,
            new_size <= i64::MAX,
            old(self).used() - old_size + new_size <= usize::MAX,
        ensures
            final(self).used() == old(self).used() - old_size + new_size,
            new_size > old_size ==> final(self).peak() == if old(self).peak() >= final(self).used() {
                old(self).peak()
            } else {
                final(self).used()
            },
            new_size <= old_size ==> final(self).peak() == old(self).peak(),
            old(self).wf() ==> final(self).counts() == count_step(old(self).counts(), AllocEvent::Realloc(old_size as int, new_size as int)),
            old(self).wf() ==> final(self).wf(),
    {
        let change: i64 = new_size as i64 - old_size as i64;
        if change > 0 {
            self.grow(change as usize);
        } else {
            self.memory_used = self.memory_used - ((-change) as usize);
        }
    }
}

/// Gets the current heap memory used in bytes.
pub fn get_memory_used(allocator: &TracingAllocator) -> (r: usize)
    ensures
        r == allocator.used(),
{
    allocator.memory_used
}

/// Gets the most heap memory that was ever used, in bytes.
pub fn get_peak_memory_usage(allocator: &TracingAllocator) -> (r: usize)
    ensures
        r == allocator.peak(),
{
    allocator.peak_memory_used
}

/// One call into a tracing allocator, with the sizes it was given.
pub enum AllocEvent {
    Alloc(int),
    AllocZeroed(int),
    Dealloc(int),
    Realloc(int, int),
}

/// How many bytes an event adds to those in use (fewer where negative).
pub open spec fn size_change(e: AllocEvent) -> int {
    match e {
        AllocEvent::Alloc(n) => n,
        AllocEvent::AllocZeroed(n) => n,
        AllocEvent::Dealloc(n) => -n,
        AllocEvent::Realloc(o, n) => n - o,
    }
}

/// The bytes in use and the peak after one event: the peak rises to what is
/// in use where that is higher.
pub open spec fn count_step(c: (int, int), e: AllocEvent) -> (int, int) {
    let used = c.0 + size_change(e);
    (used, if used > c.1 { used } else { c.1 })
}

/// The counts after a whole history of events, starting from nothing.
pub open spec fn replay(events: Seq<AllocEvent>) -> (int, int)
    decreases events.len(),
{
    if events.len() == 0 {
        (0, 0)
    } else {
        count_step(replay(events.drop_last()), events.last())
    }
}

/// The total size of the blocks still live after a history: what was
/// allocated, less what was freed, with each reallocation's change.
pub open spec fn live_total(events: Seq<AllocEvent>) -> int
    decreases events.len(),
{
    if events.len() == 0 {
        0
    } else {
        live_total(events.drop_last()) + size_change(events.last())
    }
}

/// The largest live total over every prefix of a history, and at least 0.
pub open spec fn peak_total(events: Seq<AllocEvent>) -> int
    decreases events.len(),
{
    if events.len() == 0 {
        0
    } else {
        let p = peak_total(events.drop_last());
        let t = live_total(events);
        if t > p {
            t
        } else {
            p
        }
    }
}

/// After any history of calls, starting from a new allocator, the bytes in
/// use are the total size of the blocks still live, the peak is the largest
/// such total there ever was, and the bytes in use are at most the peak.
pub proof fn lemma_history(events: Seq<AllocEvent>)
    ensures
        replay(events).0 == live_total(events),
        replay(events).1 == peak_total(events),
        replay(events).0 <= replay(events).1,
        forall|k: int| 0 <= k <= events.len() ==> #[trigger] live_total(events.take(k)) <= replay(events).1,
    decreases events.len(),
{
    if events.len() > 0 {
        let prev = events.drop_last();
        lemma_history(prev);
        assert forall|k: int| 0 <= k <= events.len() implies #[trigger] live_total(events.take(k))
            <= replay(events).1 by {
            if k < events.len() {
                assert(events.take(k) =~= prev.take(k));
            } else {
                assert(events.take(k) =~= events);
            }
        }
    } else {
        assert forall|k: int| 0 <= k <= events.len() implies #[trigger] live_total(events.take(k))
            <= replay(events).1 by {
            assert(events.take(k) =~= events);
        }
    }
}

} // verus!
