//! The bounded pool of HTTP Datagram encode buffers: at most
//! `HTTP_DATAGRAM_ENCODE_POOL_LIMIT` buffers exist at once, a returned
//! buffer is emptied and reused, and a buffer that cannot be kept is zeroed
//! before it is released.

use vstd::prelude::*;

verus! {

/// The most encode buffers that exist at once.
pub const HTTP_DATAGRAM_ENCODE_POOL_LIMIT: usize = 128;

/// The capacity of a fresh encode buffer.
pub const HTTP_DATAGRAM_BUFFER_CAPACITY: usize = 2_048;

/// The memory the pool may hold.
pub const HTTP_DATAGRAM_ENCODE_POOL_BYTE_BUDGET: usize = HTTP_DATAGRAM_ENCODE_POOL_LIMIT
    * HTTP_DATAGRAM_BUFFER_CAPACITY;

/// Calls `Vec::capacity`, which std documents as never below the length.
/// Which capacity an allocator grants beyond that is not stated.
#[verifier::external_body]
fn buffer_capacity(bytes: &Vec<u8>) -> (capacity: usize)
    ensures
        capacity >= bytes@.len(),
{
    bytes.capacity()
}

/// Whether a returned buffer is kept: its allocation is no larger than a
/// fresh buffer's, and the pool holds fewer than the limit.
pub open spec fn keeps_buffer(capacity: int, free: int) -> bool {
    capacity <= HTTP_DATAGRAM_BUFFER_CAPACITY && free < HTTP_DATAGRAM_ENCODE_POOL_LIMIT
}

/// Whether a returned buffer with this capacity is kept by a pool that
/// holds `free` buffers.
pub fn recycle_keeps(capacity: usize, free: usize) -> (keep: bool)
    ensures
        keep == keeps_buffer(capacity as int, free as int),
{
    capacity <= HTTP_DATAGRAM_BUFFER_CAPACITY && free < HTTP_DATAGRAM_ENCODE_POOL_LIMIT
}

/// How the pool was used.
#[derive(Debug, Clone, Copy, PartialEq, Eq, Structural)]
pub struct PoolCounters {
    pub hits: u64,
    pub misses: u64,
    pub reuses: u64,
    pub fresh_allocations: u64,
    pub recycles: u64,
}

/// `value + 1`, held at `u64::MAX`.
pub open spec fn bump(value: u64) -> u64 {
    if value == u64::MAX { value } else { (value + 1) as u64 }
}

fn increment(value: u64) -> (next: u64)
    ensures
        next == bump(value),
{
    value.saturating_add(1)
}

/// Overwrites the whole allocation with zeros, then empties the buffer.
fn zero_buffer(bytes: &mut Vec<u8>)
    ensures
        final(bytes)@.len() == 0,
{
    let capacity = buffer_capacity(bytes);
    bytes.resize(capacity, 0);
    let mut index: usize = 0;
    while index < bytes.len()
        invariant
            index <= bytes@.len(),
        decreases bytes@.len() - index,
    {
        bytes.set(index, 0);
        index = index + 1;
    }
    bytes.clear();
}

/// A bounded pool of encode buffers.
pub struct DatagramEncodePool {
    free: Vec<Vec<u8>>,
    allocated: usize,
    counters: PoolCounters,
}

impl DatagramEncodePool {
    /// Buffers held by the pool, ready for reuse.
    pub closed spec fn free_view(&self) -> nat {
        self.free@.len()
    }

    /// Buffers that exist: held by the pool or handed out.
    pub closed spec fn allocated_view(&self) -> nat {
        self.allocated as nat
    }

    pub closed spec fn counters_view(&self) -> PoolCounters {
        self.counters
    }

    /// Every held buffer is empty, and no more buffers exist than the limit.
    pub closed spec fn well_formed(&self) -> bool {
        &&& self.free@.len() <= self.allocated
        &&& self.allocated <= HTTP_DATAGRAM_ENCODE_POOL_LIMIT
        &&& forall|i: int| 0 <= i < self.free@.len() ==> (#[trigger] self.free@[i])@.len() == 0
    }

    /// Law: the pool never holds more buffers than exist, and never more
    /// than the limit exist.
    pub proof fn lemma_pool_is_bounded(&self)
        requires
            self.well_formed(),
        ensures
            self.free_view() <= self.allocated_view() <= HTTP_DATAGRAM_ENCODE_POOL_LIMIT,
    {
    }

    /// An empty pool.
    pub fn new() -> (pool: Self)
        ensures
            pool.well_formed(),
            pool.free_view() == 0,
            pool.allocated_view() == 0,
            pool.counters_view() == (PoolCounters {
                hits: 0,
                misses: 0,
                reuses: 0,
                fresh_allocations: 0,
                recycles: 0,
            }),
    {
        DatagramEncodePool {
            free: Vec::new(),
            allocated: 0,
            counters: PoolCounters { hits: 0, misses: 0, reuses: 0, fresh_allocations: 0, recycles: 0 },
        }
    }

    /// An empty buffer: a held one if any, else a fresh one while fewer
    /// than the limit exist, else none.
    pub fn take(&mut self) -> (buffer: Option<Vec<u8>>)
        requires
            old(self).well_formed(),
        ensures
            final(self).well_formed(),
            buffer matches Some(bytes) ==> bytes@.len() == 0,
            old(self).free_view() > 0 ==> {
                &&& buffer is Some
                &&& final(self).free_view() == old(self).free_view() - 1
                &&& final(self).allocated_view() == old(self).allocated_view()
                &&& final(self).counters_view() == (PoolCounters {
                    hits: bump(old(self).counters_view().hits),
                    reuses: bump(old(self).counters_view().reuses),
                    ..old(self).counters_view()
                })
            },
            old(self).free_view() == 0 ==> {
                &&& (buffer is Some <==> old(self).allocated_view() < HTTP_DATAGRAM_ENCODE_POOL_LIMIT)
                &&& final(self).free_view() == 0
                &&& final(self).allocated_view() == old(self).allocated_view() + if buffer is Some {
                    1int
                } else {
                    0
                }
                &&& final(self).counters_view() == (PoolCounters {
                    misses: bump(old(self).counters_view().misses),
                    fresh_allocations: if buffer is Some {
                        bump(old(self).counters_view().fresh_allocations)
                    } else {
                        old(self).counters_view().fresh_allocations
                    },
                    ..old(self).counters_view()
                })
            },
    {
        if let Some(bytes) = self.free.pop() {
            self.counters.hits = increment(self.counters.hits);
            self.counters.reuses = increment(self.counters.reuses);
            return Some(bytes);
        }
        self.counters.misses = increment(self.counters.misses);
        if self.allocated >= HTTP_DATAGRAM_ENCODE_POOL_LIMIT {
            return None;
        }
        self.allocated = self.allocated + 1;
        self.counters.fresh_allocations = increment(self.counters.fresh_allocations);
        Some(Vec::with_capacity(HTTP_DATAGRAM_BUFFER_CAPACITY))
    }

    /// What taking back a buffer did: kept it for reuse (one more held,
    /// as many existing, one more recycle counted) or released it (as many
    /// held, one fewer existing, counters unchanged).
    pub open spec fn recycled_as(before: Self, after: Self, kept: bool) -> bool {
        if kept {
            &&& after.free_view() == before.free_view() + 1
            &&& after.allocated_view() == before.allocated_view()
            &&& after.counters_view() == (PoolCounters {
                recycles: bump(before.counters_view().recycles),
                ..before.counters_view()
            })
        } else {
            &&& after.free_view() == before.free_view()
            &&& after.allocated_view() == before.allocated_view() - 1
            &&& after.counters_view() == before.counters_view()
        }
    }

    /// Takes back a buffer that was handed out, given the capacity of its
    /// allocation: it is emptied and kept exactly when
    /// `recycle_keeps(capacity, self.free_count())`; otherwise it is zeroed
    /// and released.
    pub fn recycle_with_capacity(&mut self, bytes: Vec<u8>, capacity: usize)
        requires
            old(self).well_formed(),
            old(self).free_view() < old(self).allocated_view(),
        ensures
            final(self).well_formed(),
            Self::recycled_as(*old(self), *final(self), keeps_buffer(capacity as int, old(self).free_view() as int)),
    {
        let mut bytes = bytes;
        if recycle_keeps(capacity, self.free.len()) {
            bytes.clear();
            self.free.push(bytes);
            self.counters.recycles = increment(self.counters.recycles);
        } else {
            zero_buffer(&mut bytes);
            self.allocated = self.allocated - 1;
        }
    }

    /// Takes back a buffer that was handed out. It is emptied and kept for
    /// reuse, unless its allocation grew past the buffer capacity or the
    /// pool is full; then it is zeroed and released. The capacity is the
    /// one the allocator reports for the buffer, which is at least its
    /// length; a pool that is full always releases.
    pub fn recycle(&mut self, bytes: Vec<u8>)
        requires
            old(self).well_formed(),
            old(self).free_view() < old(self).allocated_view(),
        ensures
            final(self).well_formed(),
            exists|capacity: usize|
                capacity >= bytes@.len() && #[trigger] Self::recycled_as(
                    *old(self),
                    *final(self),
                    keeps_buffer(capacity as int, old(self).free_view() as int),
                ),
            old(self).free_view() >= HTTP_DATAGRAM_ENCODE_POOL_LIMIT ==> Self::recycled_as(
                *old(self),
                *final(self),
                false,
            ),
    {
        let capacity = buffer_capacity(&bytes);
        self.recycle_with_capacity(bytes, capacity);
    }

    /// How many buffers exist.
    pub fn allocated(&self) -> (count: usize)
        ensures
            count == self.allocated_view(),
    {
        self.allocated
    }

    /// How many buffers the pool holds for reuse.
    pub fn free_count(&self) -> (count: usize)
        ensures
            count == self.free_view(),
    {
        self.free.len()
    }

    /// How the pool was used.
    pub fn counters(&self) -> (counters: PoolCounters)
        ensures
            counters == self.counters_view(),
    {
        self.counters
    }
}

} // verus!
